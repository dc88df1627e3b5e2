//! GPS receiver support: UBX configuration messages for a u-blox M10, and
//! the NMEA sentence framing, checksum and classification that feed the
//! position parser.

use vstd::prelude::*;
use vstd::string::StringSliceAdditionalSpecFns;

verus! {

// ── UBX CFG-VALSET keys ─────────────────────────────────────────────────
// Key encoding: top byte = type (0x10=L/bool, 0x20=U1/E1, 0x30=U2, 0x50=X8)

pub const CFG_SIGNAL_GPS_ENA: u32 = 0x1031001F;
pub const CFG_SIGNAL_GPS_L1CA_ENA: u32 = 0x10310001;
pub const CFG_SIGNAL_GAL_ENA: u32 = 0x10310021;
pub const CFG_SIGNAL_GAL_E1_ENA: u32 = 0x10310007;
pub const CFG_SIGNAL_BDS_ENA: u32 = 0x10310022;
pub const CFG_SIGNAL_BDS_B1_ENA: u32 = 0x1031000D;
pub const CFG_SIGNAL_GLO_ENA: u32 = 0x10310025;
pub const CFG_SIGNAL_GLO_L1_ENA: u32 = 0x10310018;
pub const CFG_SIGNAL_SBAS_ENA: u32 = 0x10310020;
pub const CFG_SIGNAL_SBAS_L1CA_ENA: u32 = 0x10310005;
pub const CFG_SIGNAL_QZSS_ENA: u32 = 0x10310024;
pub const CFG_SIGNAL_QZSS_L1CA_ENA: u32 = 0x10310012;

pub const CFG_SBAS_USE_TESTMODE: u32 = 0x10360002;
pub const CFG_SBAS_USE_RANGING: u32 = 0x10360003;
pub const CFG_SBAS_USE_DIFFCORR: u32 = 0x10360004;
pub const CFG_SBAS_PRNSCANMASK: u32 = 0x50360006;

pub const CFG_NAVSPG_DYNMODEL: u32 = 0x20110021;

pub const CFG_RATE_MEAS: u32 = 0x30210001;
pub const CFG_RATE_NAV: u32 = 0x30210002;
pub const CFG_RATE_TIMEREF: u32 = 0x20210003;

pub const CFG_MSGOUT_GLL_UART1: u32 = 0x209100CA;
pub const CFG_MSGOUT_VTG_UART1: u32 = 0x209100B1;
pub const CFG_MSGOUT_GGA_UART1: u32 = 0x209100BB;
pub const CFG_MSGOUT_GSA_UART1: u32 = 0x209100BF;
pub const CFG_MSGOUT_GSV_UART1: u32 = 0x209100C4;
pub const CFG_MSGOUT_RMC_UART1: u32 = 0x209100AC;

/// Dynamic model: airborne with up to 4 g of acceleration.
pub const DYNMODEL_AIRBORNE_4G: u8 = 8;

/// EGNOS PRN scan mask: PRN 123 (bit 3), 126 (bit 6), 136 (bit 16).
pub const EGNOS_SCANMASK: u64 = (1u64 << 3) | (1u64 << 6) | (1u64 << 16);

// ── GNSS constellations ─────────────────────────────────────────────────

/// Which constellation a satellite belongs to.
#[derive(Debug, Clone, Copy, PartialEq, Eq, Structural)]
pub enum GnssSystem {
    Unknown,
    Gps,
    Glonass,
    Galileo,
    Beidou,
    Sbas,
    Qzss,
}

impl Default for GnssSystem {
    fn default() -> (r: Self)
        ensures
            r == GnssSystem::Unknown,
    {
        GnssSystem::Unknown
    }
}

impl GnssSystem {
    /// Single-char prefix for compact satellite display.
    pub fn prefix(self) -> (r: char)
        ensures
            r == (match self {
                GnssSystem::Gps => 'G',
                GnssSystem::Glonass => 'R',
                GnssSystem::Galileo => 'E',
                GnssSystem::Beidou => 'C',
                GnssSystem::Sbas => 'S',
                GnssSystem::Qzss => 'Q',
                GnssSystem::Unknown => '?',
            }),
    {
        match self {
            GnssSystem::Gps => 'G',
            GnssSystem::Glonass => 'R',
            GnssSystem::Galileo => 'E',
            GnssSystem::Beidou => 'C',
            GnssSystem::Sbas => 'S',
            GnssSystem::Qzss => 'Q',
            GnssSystem::Unknown => '?',
        }
    }
}

// ── UBX checksum ────────────────────────────────────────────────────────

/// The two-byte Fletcher checksum UBX frames carry, as a fold over the
/// covered bytes with wrapping 8-bit additions.
pub open spec fn ubx_ck(data: Seq<u8>) -> (u8, u8)
    decreases data.len(),
{
    if data.len() == 0 {
        (0u8, 0u8)
    } else {
        let p = ubx_ck(data.drop_last());
        let a = vstd::wrapping::u8_specs::wrapping_add(p.0, data.last());
        let b = vstd::wrapping::u8_specs::wrapping_add(p.1, a);
        (a, b)
    }
}

/// 8-bit Fletcher checksum over a byte slice, as UBX frames use it.
pub fn ubx_checksum(data: &[u8]) -> (r: (u8, u8))
    ensures
        r == ubx_ck(data@),
{
    let mut ck_a: u8 = 0;
    let mut ck_b: u8 = 0;
    let mut i: usize = 0;
    proof {
        assert(data@.take(0) =~= Seq::<u8>::empty());
    }
    while i < data.len()
        invariant
            i <= data@.len(),
            (ck_a, ck_b) == ubx_ck(data@.take(i as int)),
        decreases data@.len() - i,
    {
        proof {
            assert(data@.take(i + 1).drop_last() =~= data@.take(i as int));
            assert(data@.take(i + 1).last() == data@[i as int]);
        }
        ck_a = ck_a.wrapping_add(data[i]);
        ck_b = ck_b.wrapping_add(ck_a);
        i = i + 1;
    }
    proof {
        assert(data@.take(data@.len() as int) =~= data@);
    }
    (ck_a, ck_b)
}

// ── UBX message builder ─────────────────────────────────────────────────

/// Little-endian bytes of a 32-bit configuration key.
pub open spec fn key_le(key: u32) -> Seq<u8> {
    seq![key as u8, (key >> 8) as u8, (key >> 16) as u8, (key >> 24) as u8]
}

/// A key followed by a one-byte boolean value.
pub open spec fn kv_bool(key: u32, val: bool) -> Seq<u8> {
    key_le(key).push(if val { 1u8 } else { 0u8 })
}

/// A key followed by a one-byte value.
pub open spec fn kv_u8(key: u32, val: u8) -> Seq<u8> {
    key_le(key).push(val)
}

/// A key followed by a little-endian 16-bit value.
pub open spec fn kv_u16(key: u32, val: u16) -> Seq<u8> {
    key_le(key) + seq![val as u8, (val >> 8) as u8]
}

/// A key followed by a little-endian 64-bit value.
pub open spec fn kv_u64(key: u32, val: u64) -> Seq<u8> {
    key_le(key) + Seq::new(8, |j: int| ((val >> ((8 * j) as u32)) & 0xFF) as u8)
}

/// The buffer a fresh builder starts from: sync bytes, class CFG, id
/// VALSET, version 0, layers RAM-only, everything else zero.
pub open spec fn ubx_new_buf() -> Seq<u8> {
    Seq::new(
        128,
        |i: int|
            if i == 0 {
                0xB5u8
            } else if i == 1 {
                0x62u8
            } else if i == 2 {
                0x06u8
            } else if i == 3 {
                0x8Au8
            } else if i == 7 {
                0x01u8
            } else {
                0u8
            },
    )
}

/// What finalizing does to a builder buffer: write the little-endian
/// payload length at offsets 4 and 5, then append the checksum of bytes
/// 2 up to `idx`.
pub open spec fn ubx_finalized(buf: Seq<u8>, idx: int) -> Seq<u8> {
    let pl = (idx - 6) as u16;
    let withlen = buf.update(4, pl as u8).update(5, (pl >> 8) as u8);
    let ck = ubx_ck(withlen.subrange(2, idx));
    withlen.update(idx, ck.0).update(idx + 1, ck.1)
}

/// Incremental builder for UBX CFG-VALSET frames.
pub struct UbxBuilder {
    pub buf: [u8; 128],
    pub idx: usize,
}

impl UbxBuilder {
    pub fn new() -> (r: Self)
        ensures
            r.buf@ == ubx_new_buf(),
            r.idx == 10,
    {
        let mut s = UbxBuilder { buf: [0u8; 128], idx: 10 };
        s.buf[0] = 0xB5;  // sync1
        s.buf[1] = 0x62;  // sync2
        s.buf[2] = 0x06;  // class: CFG
        s.buf[3] = 0x8A;  // id: VALSET
        s.buf[6] = 0x00;  // version (transactionless)
        s.buf[7] = 0x01;  // layers: RAM only
        proof {
            assert(s.buf@ =~= ubx_new_buf());
        }
        s
    }

    /// Append the four little-endian bytes of a configuration key.
    pub fn add_key(&mut self, key: u32)
        requires
            old(self).idx + 4 <= 128,
        ensures
            final(self).idx == old(self).idx + 4,
            final(self).buf@ == old(self).buf@.take(old(self).idx as int) + key_le(key)
                + old(self).buf@.skip(old(self).idx + 4),
    {
        let i = self.idx;
        self.buf[i] = (key & 0xFF) as u8;
        self.buf[i + 1] = ((key >> 8u32) & 0xFF) as u8;
        self.buf[i + 2] = ((key >> 16u32) & 0xFF) as u8;
        self.buf[i + 3] = ((key >> 24u32) & 0xFF) as u8;
        self.idx = self.idx + 4;
        proof {
            assert((key & 0xFF) as u8 == key as u8) by (bit_vector);
            assert(((key >> 8) & 0xFF) as u8 == (key >> 8) as u8) by (bit_vector);
            assert(((key >> 16) & 0xFF) as u8 == (key >> 16) as u8) by (bit_vector);
            assert(((key >> 24) & 0xFF) as u8 == (key >> 24) as u8) by (bit_vector);
            assert(self.buf@ =~= old(self).buf@.take(old(self).idx as int) + key_le(key)
                + old(self).buf@.skip(old(self).idx + 4));
        }
    }

    /// Append a key with a boolean value.
    pub fn add_bool(&mut self, key: u32, val: bool)
        requires
            old(self).idx + 5 <= 128,
        ensures
            final(self).idx == old(self).idx + 5,
            final(self).buf@ == old(self).buf@.take(old(self).idx as int) + kv_bool(key, val)
                + old(self).buf@.skip(old(self).idx + 5),
    {
        self.add_key(key);
        self.buf[self.idx] = if val { 1 } else { 0 };
        self.idx = self.idx + 1;
        proof {
            assert(self.buf@ =~= old(self).buf@.take(old(self).idx as int) + kv_bool(key, val)
                + old(self).buf@.skip(old(self).idx + 5));
        }
    }

    /// Append a key with a one-byte value.
    pub fn add_u8(&mut self, key: u32, val: u8)
        requires
            old(self).idx + 5 <= 128,
        ensures
            final(self).idx == old(self).idx + 5,
            final(self).buf@ == old(self).buf@.take(old(self).idx as int) + kv_u8(key, val)
                + old(self).buf@.skip(old(self).idx + 5),
    {
        self.add_key(key);
        self.buf[self.idx] = val;
        self.idx = self.idx + 1;
        proof {
            assert(self.buf@ =~= old(self).buf@.take(old(self).idx as int) + kv_u8(key, val)
                + old(self).buf@.skip(old(self).idx + 5));
        }
    }

    /// Append a key with a little-endian 16-bit value.
    pub fn add_u16(&mut self, key: u32, val: u16)
        requires
            old(self).idx + 6 <= 128,
        ensures
            final(self).idx == old(self).idx + 6,
            final(self).buf@ == old(self).buf@.take(old(self).idx as int) + kv_u16(key, val)
                + old(self).buf@.skip(old(self).idx + 6),
    {
        self.add_key(key);
        self.buf[self.idx] = (val & 0xFF) as u8;
        self.buf[self.idx + 1] = ((val >> 8u16) & 0xFF) as u8;
        self.idx = self.idx + 2;
        proof {
            assert((val & 0xFF) as u8 == val as u8) by (bit_vector);
            assert(((val >> 8) & 0xFF) as u8 == (val >> 8) as u8) by (bit_vector);
            assert(self.buf@ =~= old(self).buf@.take(old(self).idx as int) + kv_u16(key, val)
                + old(self).buf@.skip(old(self).idx + 6));
        }
    }

    /// Append a key with a little-endian 64-bit value.
    pub fn add_u64(&mut self, key: u32, val: u64)
        requires
            old(self).idx + 12 <= 128,
        ensures
            final(self).idx == old(self).idx + 12,
            final(self).buf@ == old(self).buf@.take(old(self).idx as int) + kv_u64(key, val)
                + old(self).buf@.skip(old(self).idx + 12),
    {
        self.add_key(key);
        let ghost mid = self.buf@;
        let ghost base = self.idx as int;
        let mut i: usize = 0;
        while i < 8
            invariant
                i <= 8,
                self.idx == old(self).idx + 4,
                self.idx + 8 <= 128,
                base == self.idx as int,
                self.buf@.len() == 128,
                forall|k: int|
                    0 <= k < i ==> #[trigger] self.buf@[base + k] == ((val >> ((8 * k) as u32))
                        & 0xFF) as u8,
                forall|k: int|
                    0 <= k < 128 && !(base <= k < base + i) ==> self.buf@[k] == mid[k],
                mid.len() == 128,
            decreases 8 - i,
        {
            let shift: u32 = (i as u32) * 8;
            self.buf[self.idx + i] = #[verifier::truncate] (((val >> shift) & 0xFF) as u8);
            i = i + 1;
        }
        self.idx = self.idx + 8;
        proof {
            let rhs = old(self).buf@.take(old(self).idx as int) + kv_u64(key, val) + old(
                self,
            ).buf@.skip(old(self).idx + 12);
            assert forall|j: int| 0 <= j < 128 implies self.buf@[j] == rhs[j] by {
                if base <= j < base + 8 {
                    assert(self.buf@[base + (j - base)] == ((val >> ((8 * (j - base)) as u32)
                        & 0xFF)) as u8);
                } else {
                    assert(self.buf@[j] == mid[j]);
                }
            }
            assert(self.buf@ =~= rhs);
        }
    }

    /// Fill in the payload length, append the checksum, and return the
    /// total frame length.
    pub fn finalize(&mut self) -> (n: usize)
        requires
            10 <= old(self).idx,
            old(self).idx + 2 <= 128,
        ensures
            final(self).idx == old(self).idx + 2,
            n == final(self).idx,
            final(self).buf@ == ubx_finalized(old(self).buf@, old(self).idx as int),
    {
        let payload_len = (self.idx - 6) as u16;
        self.buf[4] = (payload_len & 0xFF) as u8;
        self.buf[5] = ((payload_len >> 8u16) & 0xFF) as u8;
        let (ck_a, ck_b) = ubx_checksum(&self.buf[2..self.idx]);
        self.buf[self.idx] = ck_a;
        self.buf[self.idx + 1] = ck_b;
        self.idx = self.idx + 2;
        proof {
            assert((payload_len & 0xFF) as u8 == payload_len as u8) by (bit_vector);
            assert(((payload_len >> 8) & 0xFF) as u8 == (payload_len >> 8) as u8) by (bit_vector);
            assert(self.buf@ =~= ubx_finalized(old(self).buf@, old(self).idx as int));
        }
        self.idx
    }
}

// ── Public UBX config message builders ──────────────────────────────────

/// The key-value payload enabling GPS, Galileo, BeiDou, GLONASS and SBAS
/// and disabling QZSS.
pub open spec fn gnss_all_kvs() -> Seq<u8> {
    kv_bool(CFG_SIGNAL_GPS_ENA, true) + kv_bool(CFG_SIGNAL_GPS_L1CA_ENA, true) + kv_bool(
        CFG_SIGNAL_GAL_ENA,
        true,
    ) + kv_bool(CFG_SIGNAL_GAL_E1_ENA, true) + kv_bool(CFG_SIGNAL_BDS_ENA, true) + kv_bool(
        CFG_SIGNAL_BDS_B1_ENA,
        true,
    ) + kv_bool(CFG_SIGNAL_GLO_ENA, true) + kv_bool(CFG_SIGNAL_GLO_L1_ENA, true) + kv_bool(
        CFG_SIGNAL_SBAS_ENA,
        true,
    ) + kv_bool(CFG_SIGNAL_SBAS_L1CA_ENA, true) + kv_bool(CFG_SIGNAL_QZSS_ENA, false) + kv_bool(
        CFG_SIGNAL_QZSS_L1CA_ENA,
        false,
    )
}

/// Constellation enable message: GPS + Galileo + BeiDou + GLONASS +
/// SBAS (EGNOS), QZSS disabled (wastes tracking channels outside Japan).
#[verifier::rlimit(80)]
pub fn ubx_cfg_gnss_all() -> (r: ([u8; 128], usize))
    ensures
        r.1 == 72,
        r.0@ == ubx_finalized(ubx_new_buf().take(10) + gnss_all_kvs() + ubx_new_buf().skip(70), 70),
{
    let mut b = UbxBuilder::new();
    b.add_bool(CFG_SIGNAL_GPS_ENA, true);
    b.add_bool(CFG_SIGNAL_GPS_L1CA_ENA, true);
    b.add_bool(CFG_SIGNAL_GAL_ENA, true);
    b.add_bool(CFG_SIGNAL_GAL_E1_ENA, true);
    b.add_bool(CFG_SIGNAL_BDS_ENA, true);
    b.add_bool(CFG_SIGNAL_BDS_B1_ENA, true);
    b.add_bool(CFG_SIGNAL_GLO_ENA, true);
    b.add_bool(CFG_SIGNAL_GLO_L1_ENA, true);
    b.add_bool(CFG_SIGNAL_SBAS_ENA, true);
    b.add_bool(CFG_SIGNAL_SBAS_L1CA_ENA, true);
    b.add_bool(CFG_SIGNAL_QZSS_ENA, false);
    b.add_bool(CFG_SIGNAL_QZSS_L1CA_ENA, false);
    proof {
        assert(b.buf@ =~= ubx_new_buf().take(10) + gnss_all_kvs() + ubx_new_buf().skip(70));
    }
    let len = b.finalize();
    (b.buf, len)
}

/// The key-value payload for the navigation, SBAS, rate and message
/// output configuration.
pub open spec fn nav_sbas_rate_kvs() -> Seq<u8> {
    kv_u8(CFG_NAVSPG_DYNMODEL, DYNMODEL_AIRBORNE_4G) + kv_bool(CFG_SBAS_USE_TESTMODE, false)
        + kv_bool(CFG_SBAS_USE_RANGING, true) + kv_bool(CFG_SBAS_USE_DIFFCORR, true) + kv_u64(
        CFG_SBAS_PRNSCANMASK,
        EGNOS_SCANMASK,
    ) + kv_u16(CFG_RATE_MEAS, 100) + kv_u16(CFG_RATE_NAV, 1) + kv_u8(CFG_RATE_TIMEREF, 0) + kv_u8(
        CFG_MSGOUT_GLL_UART1,
        0,
    ) + kv_u8(CFG_MSGOUT_VTG_UART1, 0) + kv_u8(CFG_MSGOUT_GGA_UART1, 1) + kv_u8(
        CFG_MSGOUT_RMC_UART1,
        1,
    ) + kv_u8(CFG_MSGOUT_GSA_UART1, 5) + kv_u8(CFG_MSGOUT_GSV_UART1, 10)
}

/// Navigation and rate message: airborne-4g dynamic model, SBAS ranging
/// with the EGNOS PRN mask, 10 Hz navigation, GGA/RMC every cycle, GSA
/// every 5th, GSV every 10th, GLL/VTG off.
#[verifier::rlimit(80)]
pub fn ubx_cfg_nav_sbas_rate() -> (r: ([u8; 128], usize))
    ensures
        r.1 == 91,
        r.0@ == ubx_finalized(
            ubx_new_buf().take(10) + nav_sbas_rate_kvs() + ubx_new_buf().skip(89),
            89,
        ),
{
    let mut b = UbxBuilder::new();
    b.add_u8(CFG_NAVSPG_DYNMODEL, DYNMODEL_AIRBORNE_4G);
    b.add_bool(CFG_SBAS_USE_TESTMODE, false);
    b.add_bool(CFG_SBAS_USE_RANGING, true);
    b.add_bool(CFG_SBAS_USE_DIFFCORR, true);
    proof {
        assert(b.buf@ =~= ubx_new_buf().take(10) + (kv_u8(CFG_NAVSPG_DYNMODEL, DYNMODEL_AIRBORNE_4G)
            + kv_bool(CFG_SBAS_USE_TESTMODE, false) + kv_bool(CFG_SBAS_USE_RANGING, true) + kv_bool(
            CFG_SBAS_USE_DIFFCORR,
            true,
        )) + ubx_new_buf().skip(30));
    }
    b.add_u64(CFG_SBAS_PRNSCANMASK, EGNOS_SCANMASK);
    proof {
        assert(b.buf@ =~= ubx_new_buf().take(10) + (kv_u8(CFG_NAVSPG_DYNMODEL, DYNMODEL_AIRBORNE_4G)
            + kv_bool(CFG_SBAS_USE_TESTMODE, false) + kv_bool(CFG_SBAS_USE_RANGING, true) + kv_bool(
            CFG_SBAS_USE_DIFFCORR,
            true,
        ) + kv_u64(CFG_SBAS_PRNSCANMASK, EGNOS_SCANMASK)) + ubx_new_buf().skip(42));
    }
    b.add_u16(CFG_RATE_MEAS, 100);
    b.add_u16(CFG_RATE_NAV, 1);
    b.add_u8(CFG_RATE_TIMEREF, 0);
    proof {
        assert(b.buf@ =~= ubx_new_buf().take(10) + (kv_u8(CFG_NAVSPG_DYNMODEL, DYNMODEL_AIRBORNE_4G)
            + kv_bool(CFG_SBAS_USE_TESTMODE, false) + kv_bool(CFG_SBAS_USE_RANGING, true) + kv_bool(
            CFG_SBAS_USE_DIFFCORR,
            true,
        ) + kv_u64(CFG_SBAS_PRNSCANMASK, EGNOS_SCANMASK) + kv_u16(CFG_RATE_MEAS, 100) + kv_u16(
            CFG_RATE_NAV,
            1,
        ) + kv_u8(CFG_RATE_TIMEREF, 0)) + ubx_new_buf().skip(59));
    }
    b.add_u8(CFG_MSGOUT_GLL_UART1, 0);
    b.add_u8(CFG_MSGOUT_VTG_UART1, 0);
    b.add_u8(CFG_MSGOUT_GGA_UART1, 1);
    b.add_u8(CFG_MSGOUT_RMC_UART1, 1);
    b.add_u8(CFG_MSGOUT_GSA_UART1, 5);
    b.add_u8(CFG_MSGOUT_GSV_UART1, 10);
    proof {
        assert(b.buf@ =~= ubx_new_buf().take(10) + nav_sbas_rate_kvs() + ubx_new_buf().skip(89));
    }
    let len = b.finalize();
    (b.buf, len)
}

// ── NMEA sentence checksum ──────────────────────────────────────────────

/// ASCII whitespace, as trimming treats it.
pub open spec fn is_ws(b: u8) -> bool {
    b == 9 || b == 10 || b == 11 || b == 12 || b == 13 || b == 32
}

/// A byte sequence with leading whitespace removed.
pub open spec fn trim_front(s: Seq<u8>) -> Seq<u8>
    decreases s.len(),
{
    if s.len() > 0 && is_ws(s[0]) {
        trim_front(s.drop_first())
    } else {
        s
    }
}

/// A byte sequence with trailing whitespace removed.
pub open spec fn trim_back(s: Seq<u8>) -> Seq<u8>
    decreases s.len(),
{
    if s.len() > 0 && is_ws(s.last()) {
        trim_back(s.drop_last())
    } else {
        s
    }
}

/// A byte sequence with whitespace removed from both ends.
pub open spec fn spec_trim(s: Seq<u8>) -> Seq<u8> {
    trim_back(trim_front(s))
}

/// The value of one hexadecimal digit, or -1.
pub open spec fn hex_digit_val(b: u8) -> int {
    if 48 <= b <= 57 {
        b - 48
    } else if 65 <= b <= 70 {
        b - 55
    } else if 97 <= b <= 102 {
        b - 87
    } else {
        -1
    }
}

/// The value of a non-empty all-hex-digit sequence, or -1.
pub open spec fn hex_digits_val(s: Seq<u8>) -> int
    decreases s.len(),
{
    if s.len() == 0 {
        -1
    } else if s.len() == 1 {
        hex_digit_val(s[0])
    } else {
        let h = hex_digits_val(s.drop_last());
        let d = hex_digit_val(s.last());
        if h < 0 || d < 0 {
            -1
        } else {
            16 * h + d
        }
    }
}

/// The value of a hex token as integer parsing reads it: an optional `+`
/// sign followed by at least one hex digit; -1 where it is malformed.
pub open spec fn hex_token_val(s: Seq<u8>) -> int {
    if s.len() > 0 && s[0] == 43 {
        hex_digits_val(s.drop_first())
    } else {
        hex_digits_val(s)
    }
}

/// Exclusive-or of all bytes.
pub open spec fn xor_all(s: Seq<u8>) -> u8
    decreases s.len(),
{
    if s.len() == 0 {
        0
    } else {
        xor_all(s.drop_last()) ^ s.last()
    }
}

/// `p` is the position of the first `*` in `s`.
pub open spec fn nmea_star(s: Seq<u8>, p: int) -> bool {
    &&& 0 <= p < s.len()
    &&& s[p] == 42
    &&& forall|k: int| 0 <= k < p ==> s[k] != 42
}

/// The bytes the checksum covers: everything before the `*`, without a
/// leading `$`.
pub open spec fn nmea_content(s: Seq<u8>, p: int) -> Seq<u8> {
    if p > 0 && s[0] == 36 {
        s.subrange(1, p)
    } else {
        s.take(p)
    }
}

/// The first two bytes after the `*`, fewer if the sentence ends sooner.
pub open spec fn nmea_hex_region(s: Seq<u8>, p: int) -> Seq<u8> {
    let rest = s.skip(p + 1);
    if rest.len() >= 2 {
        rest.take(2)
    } else {
        rest
    }
}

/// A sentence carries a valid checksum when the hex token after its `*`
/// equals the xor of the content before it.
pub open spec fn nmea_checksum_ok(s: Seq<u8>) -> bool {
    exists|p: int|
        #[trigger] nmea_star(s, p) && hex_token_val(spec_trim(nmea_hex_region(s, p))) == xor_all(
            nmea_content(s, p),
        ) as int
}

proof fn lemma_star_unique(s: Seq<u8>, p: int, q: int)
    requires
        nmea_star(s, p),
        nmea_star(s, q),
    ensures
        p == q,
{
}

proof fn lemma_trim_front_skip(s: Seq<u8>, j: int)
    requires
        0 <= j <= s.len(),
        forall|k: int| 0 <= k < j ==> is_ws(s[k]),
        j < s.len() ==> !is_ws(s[j]),
    ensures
        trim_front(s) == s.skip(j),
    decreases j,
{
    if j == 0 {
        assert(s.skip(0) =~= s);
    } else {
        assert(is_ws(s[0]));
        lemma_trim_front_skip(s.drop_first(), j - 1);
        assert(s.drop_first().skip(j - 1) =~= s.skip(j));
    }
}

proof fn lemma_trim_back_take(s: Seq<u8>, j: int)
    requires
        0 <= j <= s.len(),
        forall|k: int| j <= k < s.len() ==> is_ws(s[k]),
        j > 0 ==> !is_ws(s[j - 1]),
    ensures
        trim_back(s) == s.take(j),
    decreases s.len() - j,
{
    if j == s.len() {
        assert(s.take(j) =~= s);
    } else {
        assert(is_ws(s.last()));
        lemma_trim_back_take(s.drop_last(), j);
        assert(s.drop_last().take(j) =~= s.take(j));
    }
}

/// The value of one hexadecimal digit, or `None`.
fn hex_digit(b: u8) -> (r: Option<u8>)
    ensures
        (r is Some) == (hex_digit_val(b) >= 0),
        r matches Some(v) ==> v as int == hex_digit_val(b),
{
    if b >= 48 && b <= 57 {
        Some(b - 48)
    } else if b >= 65 && b <= 70 {
        Some(b - 55)
    } else if b >= 97 && b <= 102 {
        Some(b - 87)
    } else {
        None
    }
}

/// Check an NMEA sentence's checksum: xor of the bytes between `$` and
/// `*` compared against the (up to two) hex digits that follow the `*`.
#[verifier::rlimit(100)]
pub fn verify_checksum(s: &str) -> (r: bool)
    ensures
        r == nmea_checksum_ok(s.spec_bytes()),
{
    let bytes = s.as_bytes();
    let n = bytes.len();

    // position of the first '*'
    let mut p: usize = 0;
    while p < n && bytes[p] != 42
        invariant
            p <= n,
            n == bytes@.len(),
            forall|k: int| 0 <= k < p ==> bytes@[k] != 42,
        decreases n - p,
    {
        p = p + 1;
    }
    if p == n {
        return false;
    }
    proof {
        assert(nmea_star(bytes@, p as int));
        assert forall|q: int| #[trigger] nmea_star(bytes@, q) implies q == p as int by {
            lemma_star_unique(bytes@, p as int, q);
        }
    }

    // xor of the content before the '*', skipping a leading '$'
    let start: usize = if bytes[0] == 36 { 1 } else { 0 };
    let ghost content = nmea_content(bytes@, p as int);
    let mut calc: u8 = 0;
    let mut i = start;
    proof {
        assert(content =~= bytes@.subrange(start as int, p as int));
        assert(content.take(0) =~= Seq::<u8>::empty());
    }
    while i < p
        invariant
            start <= i <= p <= n,
            n == bytes@.len(),
            content == bytes@.subrange(start as int, p as int),
            calc == xor_all(content.take(i - start)),
        decreases p - i,
    {
        proof {
            assert(content.take(i - start + 1).drop_last() =~= content.take(i - start));
            assert(content.take(i - start + 1).last() == bytes@[i as int]);
        }
        calc = calc ^ bytes[i];
        i = i + 1;
    }
    proof {
        assert(content.take(content.len() as int) =~= content);
    }

    // the hex token: up to two bytes after the '*', trimmed
    let hstart = p + 1;
    let avail = n - hstart;
    let hlen: usize = if avail >= 2 {
        2
    } else {
        avail
    };
    let ghost region = nmea_hex_region(bytes@, p as int);
    proof {
        assert(region =~= bytes@.subrange(hstart as int, (hstart + hlen) as int));
    }
    let mut a = hstart;
    while a < hstart + hlen && (bytes[a] == 9 || bytes[a] == 10 || bytes[a] == 11 || bytes[a] == 12
        || bytes[a] == 13 || bytes[a] == 32)
        invariant
            hstart <= a <= hstart + hlen,
            hstart + hlen <= n,
            n == bytes@.len(),
            forall|k: int| hstart <= k < a ==> is_ws(bytes@[k]),
        decreases hstart + hlen - a,
    {
        a = a + 1;
    }
    let mut e = hstart + hlen;
    while e > a && (bytes[e - 1] == 9 || bytes[e - 1] == 10 || bytes[e - 1] == 11 || bytes[e - 1]
        == 12 || bytes[e - 1] == 13 || bytes[e - 1] == 32)
        invariant
            a <= e <= hstart + hlen,
            hstart + hlen <= n,
            n == bytes@.len(),
            forall|k: int| e <= k < hstart + hlen ==> is_ws(bytes@[k]),
        decreases e,
    {
        e = e - 1;
    }
    proof {
        lemma_trim_front_skip(region, a - hstart);
        lemma_trim_back_take(region.skip(a - hstart), e - a);
        assert(spec_trim(region) =~= bytes@.subrange(a as int, e as int));
    }
    let ghost token = spec_trim(region);

    // parse the token as integer parsing would: optional '+', then one or
    // two hex digits
    let mut d = a;
    if d < e && bytes[d] == 43 {
        d = d + 1;
    }
    proof {
        if a < e && bytes@[a as int] == 43 {
            assert(hex_token_val(token) == hex_digits_val(token.drop_first()));
            assert(token.drop_first() =~= bytes@.subrange(a + 1, e as int));
        } else {
            assert(hex_token_val(token) == hex_digits_val(token));
        }
        assert(bytes@.subrange(d as int, e as int) =~= if a < e && bytes@[a as int] == 43 {
            token.drop_first()
        } else {
            token
        });
    }
    let ghost digits = bytes@.subrange(d as int, e as int);
    proof {
        assert(hex_token_val(token) == hex_digits_val(digits));
    }

    if d == e {
        proof {
            assert(hex_digits_val(digits) == -1);
            assert(!nmea_checksum_ok(bytes@));
        }
        return false;
    }
    let first = match hex_digit(bytes[d]) {
        Some(v) => v,
        None => {
            proof {
                assert(hex_digit_val(bytes@[d as int]) < 0);
                if e - d == 1 {
                    assert(digits =~= seq![bytes@[d as int]]);
                    assert(hex_digits_val(digits) == hex_digit_val(bytes@[d as int]));
                } else {
                    assert(e - d == 2);
                    assert(digits.len() == 2);
                    assert(digits.drop_last() =~= seq![bytes@[d as int]]);
                    assert(hex_digits_val(digits.drop_last()) == hex_digit_val(bytes@[d as int]));
                    assert(hex_digits_val(digits) < 0);
                }
                assert(hex_digits_val(digits) < 0);
                assert(!nmea_checksum_ok(bytes@));
            }
            return false;
        },
    };
    if d + 1 == e {
        proof {
            assert(digits =~= seq![bytes@[d as int]]);
            assert(hex_token_val(token) == first as int);
            if calc == first {
                assert(nmea_checksum_ok(bytes@));
            } else {
                assert(!nmea_checksum_ok(bytes@));
            }
        }
        return calc == first;
    }
    // the token has at most two bytes, so exactly two remain here
    let second = match hex_digit(bytes[d + 1]) {
        Some(v) => v,
        None => {
            proof {
                assert(digits.drop_last() =~= seq![bytes@[d as int]]);
                assert(digits.last() == bytes@[d + 1]);
                assert(hex_digits_val(digits) < 0);
                assert(!nmea_checksum_ok(bytes@));
            }
            return false;
        },
    };
    proof {
        assert(digits.drop_last() =~= seq![bytes@[d as int]]);
        assert(digits.last() == bytes@[d + 1]);
    }
    let value: u16 = (first as u16) * 16 + (second as u16);
    proof {
        assert(digits.len() == 2);
        assert(hex_digits_val(digits.drop_last()) == first as int);
        assert(hex_digit_val(digits.last()) == second as int);
        assert(hex_digits_val(digits) == 16 * first + second);
        assert(hex_token_val(token) == 16 * first + second);
        if calc as u16 == value {
            assert(nmea_checksum_ok(bytes@));
        } else {
            assert(!nmea_checksum_ok(bytes@));
        }
    }
    calc as u16 == value
}

// ── NMEA sentence classification ────────────────────────────────────────

/// GPS receiver link state (Betaflight-style state machine).
#[derive(Debug, Clone, Copy, PartialEq, Eq, Structural)]
pub enum GpsState {
    Unknown,
    DetectBaud,
    Initialised,
    ReceivingData,
    LostCommunication,
}

impl Default for GpsState {
    fn default() -> (r: Self)
        ensures
            r == GpsState::Unknown,
    {
        GpsState::Unknown
    }
}

/// Which NMEA sentence a line carries.
#[derive(Debug, Clone, Copy, PartialEq, Eq, Structural)]
pub enum NmeaFrame {
    Other,
    Gga,
    Rmc,
    Gsv,
    Gsa,
    Vtg,
    Gll,
}

impl Default for NmeaFrame {
    fn default() -> (r: Self)
        ensures
            r == NmeaFrame::Other,
    {
        NmeaFrame::Other
    }
}

/// Per-satellite record: PRN, carrier-to-noise ratio in dB-Hz, and the
/// constellation it belongs to.
#[derive(Debug, Clone, Copy, Default)]
pub struct SvInfo {
    pub svid: u8,
    pub cno: u8,
    pub gnss: GnssSystem,
}

pub const GPS_SV_MAXSATS: usize = 48;

/// The sentence kind named by bytes 3..6 of a line (`$xxGGA,...`).
pub open spec fn spec_classify(s: Seq<u8>) -> NmeaFrame {
    if s.len() < 6 {
        NmeaFrame::Other
    } else if s[3] == 71 && s[4] == 71 && s[5] == 65 {
        NmeaFrame::Gga
    } else if s[3] == 82 && s[4] == 77 && s[5] == 67 {
        NmeaFrame::Rmc
    } else if s[3] == 71 && s[4] == 83 && s[5] == 65 {
        NmeaFrame::Gsa
    } else if s[3] == 71 && s[4] == 83 && s[5] == 86 {
        NmeaFrame::Gsv
    } else if s[3] == 86 && s[4] == 84 && s[5] == 71 {
        NmeaFrame::Vtg
    } else if s[3] == 71 && s[4] == 76 && s[5] == 76 {
        NmeaFrame::Gll
    } else {
        NmeaFrame::Other
    }
}

/// Classify a sentence by the three letters after its talker id.
pub fn classify_sentence(s: &[u8]) -> (f: NmeaFrame)
    ensures
        f == spec_classify(s@),
{
    if s.len() < 6 {
        return NmeaFrame::Other;
    }
    if s[3] == 71 && s[4] == 71 && s[5] == 65 {
        NmeaFrame::Gga
    } else if s[3] == 82 && s[4] == 77 && s[5] == 67 {
        NmeaFrame::Rmc
    } else if s[3] == 71 && s[4] == 83 && s[5] == 65 {
        NmeaFrame::Gsa
    } else if s[3] == 71 && s[4] == 83 && s[5] == 86 {
        NmeaFrame::Gsv
    } else if s[3] == 86 && s[4] == 84 && s[5] == 71 {
        NmeaFrame::Vtg
    } else if s[3] == 71 && s[4] == 76 && s[5] == 76 {
        NmeaFrame::Gll
    } else {
        NmeaFrame::Other
    }
}

/// The constellation a GSV talker id names (`$GPGSV`, `$GLGSV`, ...).
pub open spec fn spec_gsv_talker(s: Seq<u8>) -> GnssSystem {
    if s.len() < 3 {
        GnssSystem::Unknown
    } else if s[1] == 71 && s[2] == 80 {
        GnssSystem::Gps
    } else if s[1] == 71 && s[2] == 76 {
        GnssSystem::Glonass
    } else if s[1] == 71 && s[2] == 65 {
        GnssSystem::Galileo
    } else if (s[1] == 71 && s[2] == 66) || (s[1] == 66 && s[2] == 68) {
        GnssSystem::Beidou
    } else if (s[1] == 71 && s[2] == 81) || (s[1] == 81 && s[2] == 90) {
        GnssSystem::Qzss
    } else {
        GnssSystem::Unknown
    }
}

/// Identify the constellation from an NMEA talker id.
pub fn gsv_talker(s: &[u8]) -> (g: GnssSystem)
    ensures
        g == spec_gsv_talker(s@),
{
    if s.len() < 3 {
        return GnssSystem::Unknown;
    }
    if s[1] == 71 && s[2] == 80 {
        GnssSystem::Gps
    } else if s[1] == 71 && s[2] == 76 {
        GnssSystem::Glonass
    } else if s[1] == 71 && s[2] == 65 {
        GnssSystem::Galileo
    } else if (s[1] == 71 && s[2] == 66) || (s[1] == 66 && s[2] == 68) {
        GnssSystem::Beidou
    } else if (s[1] == 71 && s[2] == 81) || (s[1] == 81 && s[2] == 90) {
        GnssSystem::Qzss
    } else {
        GnssSystem::Unknown
    }
}

// ── ASCII integer fields ────────────────────────────────────────────────

/// The value of one decimal digit, or -1.
pub open spec fn digit_val(b: u8) -> int {
    if 48 <= b <= 57 {
        b - 48
    } else {
        -1
    }
}

/// The value of a non-empty all-digit sequence, or -1.
pub open spec fn digits_val(s: Seq<u8>) -> int
    decreases s.len(),
{
    if s.len() == 0 {
        -1
    } else if s.len() == 1 {
        digit_val(s[0])
    } else {
        let h = digits_val(s.drop_last());
        let d = digit_val(s.last());
        if h < 0 || d < 0 {
            -1
        } else {
            10 * h + d
        }
    }
}

/// The value of a decimal token: an optional `+` sign followed by at
/// least one digit; -1 where it is malformed.
pub open spec fn dec_token_val(s: Seq<u8>) -> int {
    if s.len() > 0 && s[0] == 43 {
        digits_val(s.drop_first())
    } else {
        digits_val(s)
    }
}

proof fn lemma_digits_invalid(s: Seq<u8>, k: int)
    requires
        0 <= k < s.len(),
        digit_val(s[k]) < 0,
    ensures
        digits_val(s) < 0,
    decreases s.len(),
{
    if s.len() > 1 && k < s.len() - 1 {
        lemma_digits_invalid(s.drop_last(), k);
    }
}

proof fn lemma_digits_prefix(s: Seq<u8>, i: int)
    requires
        1 <= i <= s.len(),
        digits_val(s) >= 0,
    ensures
        0 <= digits_val(s.take(i)) <= digits_val(s),
    decreases s.len() - i,
{
    if i == s.len() {
        assert(s.take(i) =~= s);
    } else {
        if digits_val(s.drop_last()) < 0 {
            assert(digits_val(s) < 0);
        }
        assert(s.drop_last().take(i) =~= s.take(i));
        lemma_digits_prefix(s.drop_last(), i);
    }
}

/// Parse an ASCII decimal field as the NMEA field readers do: optional
/// `+` sign, then decimal digits; anything else, an empty field, or a
/// value over `u32::MAX` fails.
pub fn parse_u32_ascii(s: &[u8]) -> (r: Option<u32>)
    ensures
        (r is Some) == (0 <= dec_token_val(s@) <= u32::MAX),
        r matches Some(v) ==> v as int == dec_token_val(s@),
{
    let n = s.len();
    let start: usize = if n > 0 && s[0] == 43 {
        1
    } else {
        0
    };
    let ghost digits = s@.skip(start as int);
    proof {
        if start == 1 {
            assert(digits =~= s@.drop_first());
        } else {
            assert(digits =~= s@);
        }
        assert(dec_token_val(s@) == digits_val(digits));
    }
    if start == n {
        return None;
    }
    let mut val: u32 = 0;
    let mut i = start;
    while i < n
        invariant
            start <= i <= n,
            start < n,
            n == s@.len(),
            digits == s@.skip(start as int),
            dec_token_val(s@) == digits_val(digits),
            i > start ==> val as int == digits_val(digits.take(i - start)),
            i == start ==> val == 0,
        decreases n - i,
    {
        let b = s[i];
        if b < 48 || b > 57 {
            proof {
                assert(digits[i - start] == s@[i as int]);
                lemma_digits_invalid(digits, i - start);
                assert(dec_token_val(s@) == digits_val(digits));
            }
            return None;
        }
        let d = (b - 48) as u32;
        proof {
            assert(digits.take(i - start + 1).drop_last() =~= digits.take(i - start));
            assert(digits.take(i - start + 1).last() == s@[i as int]);
        }
        if val > (u32::MAX - d) / 10 {
            proof {
                let pre = digits.take(i - start + 1);
                assert(10 * (val as int) + (d as int) > u32::MAX) by (nonlinear_arith)
                    requires
                        val as int > (u32::MAX as int - d as int) / 10,
                        0 <= d as int <= 9,
                        val as int >= 0,
                ;
                if i == start {
                    assert(val == 0);
                    assert(false);
                }
                assert(digits_val(pre.drop_last()) == val as int);
                assert(digit_val(pre.last()) == d as int);
                assert(digits_val(pre) == 10 * (val as int) + (d as int));
                if digits_val(digits) >= 0 {
                    lemma_digits_prefix(digits, i - start + 1);
                    assert(dec_token_val(s@) > u32::MAX);
                } else {
                    assert(dec_token_val(s@) < 0);
                }
            }
            return None;
        }
        val = val * 10 + d;
        i = i + 1;
    }
    proof {
        assert(digits.take(n - start) =~= digits);
    }
    Some(val)
}

// ── GSV satellite table ─────────────────────────────────────────────────

/// How long after a reset a non-GPS first sentence may still open a new
/// visibility cycle (ms).
pub const GSV_CYCLE_MS: u32 = 500;

/// The table of visible satellites, accumulated from GSV sentences.  A
/// first sentence of a block either opens a new cycle (resetting the
/// count) or adds its constellation's satellites to the running one; the
/// window guards against double-counting when a sentence is missed.
#[derive(Debug, Clone, Copy)]
pub struct GsvTable {
    pub sats_in_view: u8,
    pub sv_count: u8,
    pub svinfo: [SvInfo; GPS_SV_MAXSATS],
    pub last_gsv_reset_ms: u32,
}

impl GsvTable {
    pub fn new() -> (r: Self)
        ensures
            r.sats_in_view == 0,
            r.sv_count == 0,
            r.last_gsv_reset_ms == 0,
            forall|k: int|
                0 <= k < GPS_SV_MAXSATS ==> #[trigger] r.svinfo@[k] == (SvInfo {
                    svid: 0,
                    cno: 0,
                    gnss: GnssSystem::Unknown,
                }),
    {
        GsvTable {
            sats_in_view: 0,
            sv_count: 0,
            svinfo: [SvInfo { svid: 0, cno: 0, gnss: GnssSystem::Unknown }; GPS_SV_MAXSATS],
            last_gsv_reset_ms: 0,
        }
    }

    /// Apply the header of a GSV sentence: the first sentence of a block
    /// starts a new cycle when it comes from GPS or when the window since
    /// the last reset has passed, and otherwise adds its count to the
    /// running total; later sentences of a block change nothing.
    pub fn note_header(&mut self, gnss: GnssSystem, msg_num: u8, sats: u8, now_ms: u32)
        ensures
            final(self).svinfo == old(self).svinfo,
            msg_num != 1 ==> *final(self) == *old(self),
            msg_num == 1 ==> ({
                let fresh_cycle = gnss == GnssSystem::Gps || vstd::wrapping::u32_specs::wrapping_sub(
                    now_ms,
                    old(self).last_gsv_reset_ms,
                ) > GSV_CYCLE_MS;
                if fresh_cycle {
                    &&& final(self).sats_in_view == sats
                    &&& final(self).sv_count == 0
                    &&& final(self).last_gsv_reset_ms == now_ms
                } else {
                    &&& final(self).sats_in_view == (if old(self).sats_in_view + sats > 255 {
                        255u8
                    } else {
                        (old(self).sats_in_view + sats) as u8
                    })
                    &&& final(self).sv_count == old(self).sv_count
                    &&& final(self).last_gsv_reset_ms == old(self).last_gsv_reset_ms
                }
            }),
    {
        if msg_num == 1 {
            let since_reset = now_ms.wrapping_sub(self.last_gsv_reset_ms);
            let fresh_cycle = match gnss {
                GnssSystem::Gps => true,
                _ => since_reset > GSV_CYCLE_MS,
            };
            if fresh_cycle {
                self.sats_in_view = sats;
                self.sv_count = 0;
                self.last_gsv_reset_ms = now_ms;
            } else {
                self.sats_in_view = self.sats_in_view.saturating_add(sats);
            }
        }
    }

    /// Record one satellite.  An id of zero or a full table leaves the
    /// table unchanged; otherwise the record takes the next slot.
    pub fn push_sv(&mut self, svid: u8, cno: u8, gnss: GnssSystem) -> (added: bool)
        ensures
            added == (svid != 0 && old(self).sv_count < GPS_SV_MAXSATS),
            !added ==> *final(self) == *old(self),
            added ==> ({
                &&& final(self).sv_count == old(self).sv_count + 1
                &&& final(self).svinfo@ == old(self).svinfo@.update(
                    old(self).sv_count as int,
                    SvInfo { svid, cno, gnss },
                )
                &&& final(self).sats_in_view == old(self).sats_in_view
                &&& final(self).last_gsv_reset_ms == old(self).last_gsv_reset_ms
            }),
    {
        if svid == 0 || self.sv_count as usize >= GPS_SV_MAXSATS {
            return false;
        }
        self.svinfo[self.sv_count as usize] = SvInfo { svid, cno, gnss };
        self.sv_count = self.sv_count + 1;
        true
    }
}

// ── GPS link monitor ────────────────────────────────────────────────────

/// Timeout before the link is declared lost (ms).
pub const GPS_TIMEOUT_MS: u32 = 2500;

/// The integer health counters of the GPS link: the state machine, the
/// sentence counters that drive it, and the byte-arrival clock.
#[derive(Debug, Clone, Copy, PartialEq, Eq, Structural)]
pub struct GpsMonitor {
    pub state: GpsState,
    pub sentences_rx: u16,
    pub gga_count: u16,
    pub timeouts: u16,
    pub last_byte_ms: u32,
}

/// One step of the link state machine: fresh bytes advance detection,
/// parsed sentences advance initialisation, a first GGA starts reception,
/// silence beyond the timeout declares the link lost, and new bytes after
/// a loss restart detection.
pub open spec fn spec_update_timing(m: GpsMonitor, now_ms: u32, bytes_this_tick: usize) -> GpsMonitor {
    let m1 = if bytes_this_tick > 0 {
        GpsMonitor { last_byte_ms: now_ms, ..m }
    } else {
        m
    };
    match m1.state {
        GpsState::Unknown => if bytes_this_tick > 0 {
            GpsMonitor { state: GpsState::DetectBaud, ..m1 }
        } else {
            m1
        },
        GpsState::DetectBaud => if m1.sentences_rx > 0 {
            GpsMonitor { state: GpsState::Initialised, ..m1 }
        } else {
            m1
        },
        GpsState::Initialised => if m1.gga_count > 0 {
            GpsMonitor { state: GpsState::ReceivingData, ..m1 }
        } else {
            m1
        },
        GpsState::ReceivingData => if vstd::wrapping::u32_specs::wrapping_sub(
            now_ms,
            m1.last_byte_ms,
        ) > GPS_TIMEOUT_MS {
            GpsMonitor {
                state: GpsState::LostCommunication,
                timeouts: vstd::wrapping::u16_specs::wrapping_add(m1.timeouts, 1),
                ..m1
            }
        } else {
            m1
        },
        GpsState::LostCommunication => if bytes_this_tick > 0 {
            GpsMonitor { state: GpsState::DetectBaud, ..m1 }
        } else {
            m1
        },
    }
}

impl GpsMonitor {
    pub fn new() -> (r: Self)
        ensures
            r == (GpsMonitor {
                state: GpsState::Unknown,
                sentences_rx: 0,
                gga_count: 0,
                timeouts: 0,
                last_byte_ms: 0,
            }),
    {
        GpsMonitor {
            state: GpsState::Unknown,
            sentences_rx: 0,
            gga_count: 0,
            timeouts: 0,
            last_byte_ms: 0,
        }
    }

    /// Call once per loop iteration with the current clock and how many
    /// bytes arrived this tick.  The timeout is measured from the last
    /// received byte, not the last navigation solution, so a stream of
    /// sentences that fail their checksums still holds the link up.
    pub fn update_timing(&mut self, now_ms: u32, bytes_this_tick: usize)
        ensures
            *final(self) == spec_update_timing(*old(self), now_ms, bytes_this_tick),
    {
        if bytes_this_tick > 0 {
            self.last_byte_ms = now_ms;
        }
        match self.state {
            GpsState::Unknown => {
                if bytes_this_tick > 0 {
                    self.state = GpsState::DetectBaud;
                }
            },
            GpsState::DetectBaud => {
                if self.sentences_rx > 0 {
                    self.state = GpsState::Initialised;
                }
            },
            GpsState::Initialised => {
                if self.gga_count > 0 {
                    self.state = GpsState::ReceivingData;
                }
            },
            GpsState::ReceivingData => {
                if now_ms.wrapping_sub(self.last_byte_ms) > GPS_TIMEOUT_MS {
                    self.state = GpsState::LostCommunication;
                    self.timeouts = self.timeouts.wrapping_add(1);
                }
            },
            GpsState::LostCommunication => {
                if bytes_this_tick > 0 {
                    self.state = GpsState::DetectBaud;
                }
            },
        }
    }
}

// ── NMEA framing ────────────────────────────────────────────────────────

/// The framer buffer after one byte: a `$` restarts the sentence, an
/// overflowing buffer is dropped, and a newline completes the line.
pub open spec fn nmea_step_buf(buf: Seq<u8>, b: u8) -> Seq<u8> {
    let base = if b == 36 {
        Seq::<u8>::empty()
    } else {
        buf
    };
    if base.len() >= 128 {
        Seq::empty()
    } else if b == 10 {
        Seq::empty()
    } else {
        base.push(b)
    }
}

/// Whether this byte overflows the sentence buffer.
pub open spec fn nmea_overflows(buf: Seq<u8>, b: u8) -> bool {
    (if b == 36 {
        0int
    } else {
        buf.len() as int
    }) >= 128
}

/// Whether this byte completes a line.
pub open spec fn nmea_emits_line(buf: Seq<u8>, b: u8) -> bool {
    !nmea_overflows(buf, b) && b == 10
}

/// The completed line, newline included.
pub open spec fn nmea_line(buf: Seq<u8>, b: u8) -> Seq<u8> {
    (if b == 36 {
        Seq::<u8>::empty()
    } else {
        buf
    }).push(b)
}

/// The framer buffer after a whole slice of input.
pub open spec fn nmea_run_buf(buf: Seq<u8>, data: Seq<u8>) -> Seq<u8>
    decreases data.len(),
{
    if data.len() == 0 {
        buf
    } else {
        nmea_step_buf(nmea_run_buf(buf, data.drop_last()), data.last())
    }
}

/// The framer error counter after a whole slice of input.
pub open spec fn nmea_run_errors(buf: Seq<u8>, errs: u16, data: Seq<u8>) -> u16
    decreases data.len(),
{
    if data.len() == 0 {
        errs
    } else {
        let pe = nmea_run_errors(buf, errs, data.drop_last());
        if nmea_overflows(nmea_run_buf(buf, data.drop_last()), data.last()) {
            vstd::wrapping::u16_specs::wrapping_add(pe, 1)
        } else {
            pe
        }
    }
}

/// The lines a whole slice of input completes, in order.
pub open spec fn nmea_run_lines(buf: Seq<u8>, data: Seq<u8>) -> Seq<Seq<u8>>
    decreases data.len(),
{
    if data.len() == 0 {
        Seq::empty()
    } else {
        let pb = nmea_run_buf(buf, data.drop_last());
        let pl = nmea_run_lines(buf, data.drop_last());
        if nmea_emits_line(pb, data.last()) {
            pl.push(nmea_line(pb, data.last()))
        } else {
            pl
        }
    }
}

/// Splits a UART byte stream into NMEA lines.  A `$` restarts the
/// sentence buffer, a newline completes it, and an overflowing sentence
/// is dropped and counted as a frame error.
pub struct NmeaFramer {
    buffer: Vec<u8>,
    frame_errors: u16,
}

impl View for NmeaFramer {
    type V = Seq<u8>;

    closed spec fn view(&self) -> Seq<u8> {
        self.buffer@
    }
}

impl NmeaFramer {
    pub open spec fn wf(&self) -> bool {
        self@.len() <= 128
    }

    /// How many sentences overflowed the buffer and were dropped.
    pub closed spec fn spec_frame_errors(&self) -> u16 {
        self.frame_errors
    }

    pub fn frame_error_count(&self) -> (r: u16)
        ensures
            r == self.spec_frame_errors(),
    {
        self.frame_errors
    }

    pub fn new() -> (r: Self)
        ensures
            r.wf(),
            r@ == Seq::<u8>::empty(),
            r.spec_frame_errors() == 0,
    {
        let r = NmeaFramer { buffer: Vec::new(), frame_errors: 0 };
        proof {
            assert(r@ =~= Seq::<u8>::empty());
        }
        r
    }

    /// Feed one byte; returns the completed line when the byte ends one.
    pub fn push_byte(&mut self, b: u8) -> (r: Option<Vec<u8>>)
        requires
            old(self).wf(),
        ensures
            final(self).wf(),
            final(self)@ == nmea_step_buf(old(self)@, b),
            final(self).spec_frame_errors() == (if nmea_overflows(old(self)@, b) {
                vstd::wrapping::u16_specs::wrapping_add(old(self).spec_frame_errors(), 1)
            } else {
                old(self).spec_frame_errors()
            }),
            (r is Some) == nmea_emits_line(old(self)@, b),
            r matches Some(line) ==> line@ == nmea_line(old(self)@, b),
    {
        if b == 36 {
            self.buffer.clear();
        }
        if self.buffer.len() >= 128 {
            self.frame_errors = self.frame_errors.wrapping_add(1);
            self.buffer.clear();
            return None;
        }
        self.buffer.push(b);
        if b == 10 {
            let mut line: Vec<u8> = Vec::new();
            let mut i: usize = 0;
            proof {
                assert(line@ =~= self.buffer@.take(0));
            }
            while i < self.buffer.len()
                invariant
                    i <= self.buffer@.len(),
                    line@ == self.buffer@.take(i as int),
                decreases self.buffer@.len() - i,
            {
                proof {
                    assert(self.buffer@.take(i + 1) =~= self.buffer@.take(i as int).push(
                        self.buffer@[i as int],
                    ));
                }
                line.push(self.buffer[i]);
                i = i + 1;
            }
            proof {
                assert(self.buffer@.take(self.buffer@.len() as int) =~= self.buffer@);
            }
            self.buffer.clear();
            return Some(line);
        }
        None
    }

    /// Feed a slice of bytes; returns every line it completes, in order.
    pub fn push_data(&mut self, data: &[u8]) -> (out: Vec<Vec<u8>>)
        requires
            old(self).wf(),
        ensures
            final(self).wf(),
            final(self)@ == nmea_run_buf(old(self)@, data@),
            final(self).spec_frame_errors() == nmea_run_errors(
                old(self)@,
                old(self).spec_frame_errors(),
                data@,
            ),
            out@.len() == nmea_run_lines(old(self)@, data@).len(),
            forall|k: int|
                0 <= k < out@.len() ==> #[trigger] out@[k]@ == nmea_run_lines(
                    old(self)@,
                    data@,
                )[k],
    {
        let ghost start = old(self)@;
        let ghost errs0 = old(self).spec_frame_errors();
        let mut out: Vec<Vec<u8>> = Vec::new();
        let mut i: usize = 0;
        proof {
            assert(data@.take(0) =~= Seq::<u8>::empty());
        }
        while i < data.len()
            invariant
                i <= data@.len(),
                self.wf(),
                self@ == nmea_run_buf(start, data@.take(i as int)),
                self.spec_frame_errors() == nmea_run_errors(start, errs0, data@.take(i as int)),
                out@.len() == nmea_run_lines(start, data@.take(i as int)).len(),
                forall|k: int|
                    0 <= k < out@.len() ==> #[trigger] out@[k]@ == nmea_run_lines(
                        start,
                        data@.take(i as int),
                    )[k],
            decreases data@.len() - i,
        {
            proof {
                assert(data@.take(i + 1).drop_last() =~= data@.take(i as int));
                assert(data@.take(i + 1).last() == data@[i as int]);
            }
            let r = self.push_byte(data[i]);
            if let Some(line) = r {
                out.push(line);
            }
            i = i + 1;
        }
        proof {
            assert(data@.take(data@.len() as int) =~= data@);
        }
        out
    }
}

} // verus!
