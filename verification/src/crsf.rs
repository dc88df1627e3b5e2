//! CRSF radio link codec.
//!
//! Incoming frames carry 16 RC channels packed as 11-bit values; outgoing
//! telemetry frames carry GPS, attitude, battery, vario and barometer
//! records.  A frame on the wire is `[Sync] [Len] [Type] [Payload...] [CRC]`
//! where `Len` counts type, payload and CRC, and the CRC-8 (polynomial
//! 0xD5) covers type and payload.

use vstd::prelude::*;
use vstd::string::StringSliceAdditionalSpecFns;

verus! {

pub const CRSF_SYNC: u8 = 0xC8;
pub const CRSF_FRAMETYPE_RC_CHANNELS_PACKED: u8 = 0x16;

pub const CRSF_ADDRESS_FLIGHT_CONTROLLER: u8 = 0xC8;
pub const CRSF_ADDRESS_RADIO_TRANSMITTER: u8 = 0xEA;
pub const CRSF_ADDRESS_CRSF_TRANSMITTER: u8 = 0xEE;
pub const CRSF_ADDRESS_BROADCAST: u8 = 0x00;

pub const CRSF_FRAMETYPE_GPS: u8 = 0x02;
pub const CRSF_FRAMETYPE_BATTERY_SENSOR: u8 = 0x08;
pub const CRSF_FRAMETYPE_ATTITUDE: u8 = 0x1E;
pub const CRSF_FRAMETYPE_FLIGHT_MODE: u8 = 0x21;
pub const CRSF_FRAMETYPE_VARIO: u8 = 0x09;
pub const CRSF_FRAMETYPE_BAROMETRIC_SENSORS: u8 = 0x11;

// ── CRC-8 (poly 0xD5, init 0) ───────────────────────────────────────────

/// One shift-and-conditionally-xor round of the CRC-8.
pub open spec fn crc8_round(c: u8) -> u8 {
    if c & 0x80 != 0 {
        (c << 1) ^ 0xD5
    } else {
        c << 1
    }
}

/// `n` CRC rounds applied to `c`.
pub open spec fn crc8_rounds(c: u8, n: nat) -> u8
    decreases n,
{
    if n == 0 {
        c
    } else {
        crc8_round(crc8_rounds(c, (n - 1) as nat))
    }
}

/// The CRC-8 of a byte sequence: xor each byte in, then eight rounds.
pub open spec fn crc8_seq(data: Seq<u8>) -> u8
    decreases data.len(),
{
    if data.len() == 0 {
        0
    } else {
        crc8_rounds(crc8_seq(data.drop_last()) ^ data.last(), 8)
    }
}

/// CRC-8 used by CRSF frames (polynomial 0xD5, initial value 0).
pub fn calc_crc8(data: &[u8]) -> (r: u8)
    ensures
        r == crc8_seq(data@),
{
    let mut crc: u8 = 0;
    let mut i: usize = 0;
    while i < data.len()
        invariant
            i <= data@.len(),
            crc == crc8_seq(data@.take(i as int)),
        decreases data@.len() - i,
    {
        let ghost entry = crc8_seq(data@.take(i as int)) ^ data@[i as int];
        crc = crc ^ data[i];
        let mut j: usize = 0;
        while j < 8
            invariant
                j <= 8,
                crc == crc8_rounds(entry, j as nat),
            decreases 8 - j,
        {
            if crc & 0x80 != 0 {
                crc = (crc << 1u8) ^ 0xD5;
            } else {
                crc = crc << 1u8;
            }
            j = j + 1;
        }
        proof {
            assert(data@.take(i + 1).drop_last() =~= data@.take(i as int));
            assert(data@.take(i + 1).last() == data@[i as int]);
        }
        i = i + 1;
    }
    proof {
        assert(data@.take(data@.len() as int) =~= data@);
    }
    crc
}

// ── RC channel unpacking ────────────────────────────────────────────────

/// One decoded RC frame: 16 channels of 11-bit values (0..=2047).
#[derive(Debug, Default, Clone, Copy)]
pub struct RcChannels {
    pub channels: [u16; 16],
}

/// Channel `i` of a 22-byte packed payload: 11 bits, little-endian bit
/// order, starting at bit `11 * i`.
pub open spec fn spec_channel(b: Seq<u8>, i: int) -> u16 {
    if i == 0 {
        ((b[0] as u16) | ((b[1] as u16) << 8)) & 0x07FF
    } else if i == 1 {
        (((b[1] as u16) >> 3) | ((b[2] as u16) << 5)) & 0x07FF
    } else if i == 2 {
        (((b[2] as u16) >> 6) | ((b[3] as u16) << 2) | ((b[4] as u16) << 10)) & 0x07FF
    } else if i == 3 {
        (((b[4] as u16) >> 1) | ((b[5] as u16) << 7)) & 0x07FF
    } else if i == 4 {
        (((b[5] as u16) >> 4) | ((b[6] as u16) << 4)) & 0x07FF
    } else if i == 5 {
        (((b[6] as u16) >> 7) | ((b[7] as u16) << 1) | ((b[8] as u16) << 9)) & 0x07FF
    } else if i == 6 {
        (((b[8] as u16) >> 2) | ((b[9] as u16) << 6)) & 0x07FF
    } else if i == 7 {
        (((b[9] as u16) >> 5) | ((b[10] as u16) << 3)) & 0x07FF
    } else if i == 8 {
        ((b[11] as u16) | ((b[12] as u16) << 8)) & 0x07FF
    } else if i == 9 {
        (((b[12] as u16) >> 3) | ((b[13] as u16) << 5)) & 0x07FF
    } else if i == 10 {
        (((b[13] as u16) >> 6) | ((b[14] as u16) << 2) | ((b[15] as u16) << 10)) & 0x07FF
    } else if i == 11 {
        (((b[15] as u16) >> 1) | ((b[16] as u16) << 7)) & 0x07FF
    } else if i == 12 {
        (((b[16] as u16) >> 4) | ((b[17] as u16) << 4)) & 0x07FF
    } else if i == 13 {
        (((b[17] as u16) >> 7) | ((b[18] as u16) << 1) | ((b[19] as u16) << 9)) & 0x07FF
    } else if i == 14 {
        (((b[19] as u16) >> 2) | ((b[20] as u16) << 6)) & 0x07FF
    } else if i == 15 {
        (((b[20] as u16) >> 5) | ((b[21] as u16) << 3)) & 0x07FF
    } else {
        0
    }
}

proof fn lemma_mask11(x: u16)
    ensures
        (x & 0x07FF) < 2048,
{
    assert((x & 0x07FF) < 2048) by (bit_vector);
}

/// Every channel value an 11-bit mask can produce is below 2048.
pub proof fn lemma_channel_bounded(b: Seq<u8>, i: int)
    ensures
        spec_channel(b, i) < 2048,
{
    if i == 0 {
        lemma_mask11((b[0] as u16) | ((b[1] as u16) << 8));
    } else if i == 1 {
        lemma_mask11(((b[1] as u16) >> 3) | ((b[2] as u16) << 5));
    } else if i == 2 {
        lemma_mask11(((b[2] as u16) >> 6) | ((b[3] as u16) << 2) | ((b[4] as u16) << 10));
    } else if i == 3 {
        lemma_mask11(((b[4] as u16) >> 1) | ((b[5] as u16) << 7));
    } else if i == 4 {
        lemma_mask11(((b[5] as u16) >> 4) | ((b[6] as u16) << 4));
    } else if i == 5 {
        lemma_mask11(((b[6] as u16) >> 7) | ((b[7] as u16) << 1) | ((b[8] as u16) << 9));
    } else if i == 6 {
        lemma_mask11(((b[8] as u16) >> 2) | ((b[9] as u16) << 6));
    } else if i == 7 {
        lemma_mask11(((b[9] as u16) >> 5) | ((b[10] as u16) << 3));
    } else if i == 8 {
        lemma_mask11((b[11] as u16) | ((b[12] as u16) << 8));
    } else if i == 9 {
        lemma_mask11(((b[12] as u16) >> 3) | ((b[13] as u16) << 5));
    } else if i == 10 {
        lemma_mask11(((b[13] as u16) >> 6) | ((b[14] as u16) << 2) | ((b[15] as u16) << 10));
    } else if i == 11 {
        lemma_mask11(((b[15] as u16) >> 1) | ((b[16] as u16) << 7));
    } else if i == 12 {
        lemma_mask11(((b[16] as u16) >> 4) | ((b[17] as u16) << 4));
    } else if i == 13 {
        lemma_mask11(((b[17] as u16) >> 7) | ((b[18] as u16) << 1) | ((b[19] as u16) << 9));
    } else if i == 14 {
        lemma_mask11(((b[19] as u16) >> 2) | ((b[20] as u16) << 6));
    } else if i == 15 {
        lemma_mask11(((b[20] as u16) >> 5) | ((b[21] as u16) << 3));
    }
}

/// Unpack 16 channels of 11 bits each from a 22-byte payload.  A payload
/// of any other length yields all-zero channels.
pub fn parse_channels(payload: &[u8]) -> (r: RcChannels)
    ensures
        payload@.len() == 22 ==> forall|i: int|
            0 <= i < 16 ==> r.channels@[i] == spec_channel(payload@, i),
        payload@.len() != 22 ==> forall|i: int| 0 <= i < 16 ==> r.channels@[i] == 0,
        forall|i: int| 0 <= i < 16 ==> r.channels@[i] < 2048,
{
    let mut ch = [0u16; 16];

    if payload.len() != 22 {
        return RcChannels { channels: ch };
    }

    let buf = payload;

    ch[0] = ((buf[0] as u16) | ((buf[1] as u16) << 8u16)) & 0x07FF;
    ch[1] = (((buf[1] as u16) >> 3u16) | ((buf[2] as u16) << 5u16)) & 0x07FF;
    ch[2] = (((buf[2] as u16) >> 6u16) | ((buf[3] as u16) << 2u16) | ((buf[4] as u16) << 10u16))
        & 0x07FF;
    ch[3] = (((buf[4] as u16) >> 1u16) | ((buf[5] as u16) << 7u16)) & 0x07FF;
    ch[4] = (((buf[5] as u16) >> 4u16) | ((buf[6] as u16) << 4u16)) & 0x07FF;
    ch[5] = (((buf[6] as u16) >> 7u16) | ((buf[7] as u16) << 1u16) | ((buf[8] as u16) << 9u16))
        & 0x07FF;
    ch[6] = (((buf[8] as u16) >> 2u16) | ((buf[9] as u16) << 6u16)) & 0x07FF;
    ch[7] = (((buf[9] as u16) >> 5u16) | ((buf[10] as u16) << 3u16)) & 0x07FF;

    ch[8] = ((buf[11] as u16) | ((buf[12] as u16) << 8u16)) & 0x07FF;
    ch[9] = (((buf[12] as u16) >> 3u16) | ((buf[13] as u16) << 5u16)) & 0x07FF;
    ch[10] = (((buf[13] as u16) >> 6u16) | ((buf[14] as u16) << 2u16) | ((buf[15] as u16)
        << 10u16)) & 0x07FF;
    ch[11] = (((buf[15] as u16) >> 1u16) | ((buf[16] as u16) << 7u16)) & 0x07FF;
    ch[12] = (((buf[16] as u16) >> 4u16) | ((buf[17] as u16) << 4u16)) & 0x07FF;
    ch[13] = (((buf[17] as u16) >> 7u16) | ((buf[18] as u16) << 1u16) | ((buf[19] as u16)
        << 9u16)) & 0x07FF;
    ch[14] = (((buf[19] as u16) >> 2u16) | ((buf[20] as u16) << 6u16)) & 0x07FF;
    ch[15] = (((buf[20] as u16) >> 5u16) | ((buf[21] as u16) << 3u16)) & 0x07FF;

    proof {
        assert forall|i: int| 0 <= i < 16 implies ch@[i] < 2048 by {
            lemma_channel_bounded(buf@, i);
        }
    }

    RcChannels { channels: ch }
}

// ── Incoming frame assembly ─────────────────────────────────────────────

/// The parser buffer after one input byte.  An empty buffer waits for the
/// sync byte; the second byte must be a plausible length; later bytes fill
/// the frame, and a completed frame always empties the buffer.
pub open spec fn crsf_step_buf(buf: Seq<u8>, b: u8) -> Seq<u8> {
    if buf.len() == 0 {
        if b == CRSF_SYNC {
            seq![b]
        } else {
            Seq::empty()
        }
    } else if buf.len() == 1 {
        if b < 2 || b > 62 {
            if b == CRSF_SYNC {
                seq![b]
            } else {
                Seq::empty()
            }
        } else {
            buf.push(b)
        }
    } else {
        if buf.len() + 1 >= 2 + buf[1] {
            Seq::empty()
        } else {
            buf.push(b)
        }
    }
}

/// Whether this byte completes a frame (valid or not).
pub open spec fn crsf_completes(buf: Seq<u8>, b: u8) -> bool {
    buf.len() >= 2 && buf.len() + 1 >= 2 + buf[1]
}

/// Whether this byte completes a CRC-valid RC-channels frame, which is the
/// only frame kind the parser reports.
pub open spec fn crsf_emits(buf: Seq<u8>, b: u8) -> bool {
    crsf_completes(buf, b) && {
        let cand = buf.push(b);
        let total = 2 + buf[1] as int;
        &&& crc8_seq(cand.subrange(2, total - 1)) == cand[total - 1]
        &&& cand[2] == CRSF_FRAMETYPE_RC_CHANNELS_PACKED
        &&& buf[1] == 24
    }
}

/// The 22-byte packed payload of the frame this byte completes.
pub open spec fn crsf_rc_payload(buf: Seq<u8>, b: u8) -> Seq<u8> {
    buf.push(b).subrange(3, 2 + buf[1] as int - 1)
}

/// The parser buffer after a whole slice of input bytes.
pub open spec fn crsf_run_buf(buf: Seq<u8>, data: Seq<u8>) -> Seq<u8>
    decreases data.len(),
{
    if data.len() == 0 {
        buf
    } else {
        crsf_step_buf(crsf_run_buf(buf, data.drop_last()), data.last())
    }
}

/// Whether any byte of the slice emitted a valid RC frame.
pub open spec fn crsf_run_emits(buf: Seq<u8>, data: Seq<u8>) -> bool
    decreases data.len(),
{
    if data.len() == 0 {
        false
    } else {
        crsf_emits(crsf_run_buf(buf, data.drop_last()), data.last()) || crsf_run_emits(
            buf,
            data.drop_last(),
        )
    }
}

/// The payload of the last RC frame the slice emitted.
pub open spec fn crsf_run_last_payload(buf: Seq<u8>, data: Seq<u8>) -> Seq<u8>
    decreases data.len(),
{
    if data.len() == 0 {
        Seq::empty()
    } else if crsf_emits(crsf_run_buf(buf, data.drop_last()), data.last()) {
        crsf_rc_payload(crsf_run_buf(buf, data.drop_last()), data.last())
    } else {
        crsf_run_last_payload(buf, data.drop_last())
    }
}

/// Byte-at-a-time assembler for incoming CRSF frames.
pub struct CrsfParser {
    buffer: Vec<u8>,
}

impl View for CrsfParser {
    type V = Seq<u8>;

    closed spec fn view(&self) -> Seq<u8> {
        self.buffer@
    }
}

impl CrsfParser {
    /// A partially assembled frame is always headed by the sync byte, its
    /// length byte is plausible, and it is never longer than the frame it
    /// announces.
    pub open spec fn wf(&self) -> bool {
        &&& self@.len() <= 63
        &&& (self@.len() >= 1 ==> self@[0] == CRSF_SYNC)
        &&& (self@.len() >= 2 ==> 2 <= self@[1] <= 62 && self@.len() < 2 + self@[1])
    }

    pub fn new() -> (r: Self)
        ensures
            r.wf(),
            r@ == Seq::<u8>::empty(),
    {
        let r = CrsfParser { buffer: Vec::new() };
        proof {
            assert(r@ =~= Seq::<u8>::empty());
        }
        r
    }

    /// Feed one byte.  Returns the decoded channels whenever the byte
    /// completes a CRC-valid RC-channels frame.
    pub fn push_byte(&mut self, b: u8) -> (r: Option<RcChannels>)
        requires
            old(self).wf(),
        ensures
            final(self).wf(),
            final(self)@ == crsf_step_buf(old(self)@, b),
            (r is Some) == crsf_emits(old(self)@, b),
            r matches Some(rc) ==> forall|i: int|
                0 <= i < 16 ==> rc.channels@[i] == spec_channel(
                    crsf_rc_payload(old(self)@, b),
                    i,
                ),
    {
        if self.buffer.len() == 0 {
            if b == CRSF_SYNC {
                self.buffer.push(b);
            }
            proof {
                assert(self@ =~= crsf_step_buf(old(self)@, b));
            }
            return None;
        }

        if self.buffer.len() == 1 {
            if b < 2 || b > 62 {
                self.buffer.clear();
                if b == CRSF_SYNC {
                    self.buffer.push(b);
                }
                proof {
                    assert(self@ =~= crsf_step_buf(old(self)@, b));
                }
                return None;
            }
            self.buffer.push(b);
            return None;
        }

        let len_byte = self.buffer[1];
        let total_size = 2 + len_byte as usize;

        if self.buffer.len() < total_size {
            self.buffer.push(b);
        }

        if self.buffer.len() == total_size {
            let frame = self.buffer.as_slice();
            let payload_crc_range = &frame[2..total_size - 1];
            let received_crc = frame[total_size - 1];

            if calc_crc8(payload_crc_range) == received_crc {
                let type_byte = frame[2];
                let payload = &frame[3..total_size - 1];

                if type_byte == CRSF_FRAMETYPE_RC_CHANNELS_PACKED && payload.len() == 22 {
                    let channels = parse_channels(payload);
                    self.buffer.clear();
                    proof {
                        assert(self@ =~= crsf_step_buf(old(self)@, b));
                    }
                    return Some(channels);
                }
            }

            self.buffer.clear();
            proof {
                assert(self@ =~= crsf_step_buf(old(self)@, b));
            }
        }

        None
    }

    /// Feed a slice of bytes; returns the channels of the last valid RC
    /// frame the slice completed, if any.
    pub fn push_bytes(&mut self, data: &[u8]) -> (r: Option<RcChannels>)
        requires
            old(self).wf(),
        ensures
            final(self).wf(),
            final(self)@ == crsf_run_buf(old(self)@, data@),
            (r is Some) == crsf_run_emits(old(self)@, data@),
            r matches Some(rc) ==> forall|i: int|
                0 <= i < 16 ==> rc.channels@[i] == spec_channel(
                    crsf_run_last_payload(old(self)@, data@),
                    i,
                ),
    {
        let ghost start = old(self)@;
        let mut last_res: Option<RcChannels> = None;
        let mut i: usize = 0;
        proof {
            assert(data@.take(0) =~= Seq::<u8>::empty());
        }
        while i < data.len()
            invariant
                i <= data@.len(),
                self.wf(),
                self@ == crsf_run_buf(start, data@.take(i as int)),
                (last_res is Some) == crsf_run_emits(start, data@.take(i as int)),
                last_res matches Some(rc) ==> forall|k: int|
                    0 <= k < 16 ==> rc.channels@[k] == spec_channel(
                        crsf_run_last_payload(start, data@.take(i as int)),
                        k,
                    ),
            decreases data@.len() - i,
        {
            let b = data[i];
            proof {
                assert(data@.take(i + 1).drop_last() =~= data@.take(i as int));
                assert(data@.take(i + 1).last() == data@[i as int]);
            }
            let res = self.push_byte(b);
            if let Some(rc) = res {
                last_res = Some(rc);
            }
            i = i + 1;
        }
        proof {
            assert(data@.take(data@.len() as int) =~= data@);
        }
        last_res
    }
}

// ── Outgoing telemetry framing ──────────────────────────────────────────

/// Serialize one telemetry frame `[Sync] [Len] [Type] [Payload...] [CRC]`
/// into `buf` and return the number of bytes written; a buffer too small
/// for the frame is left untouched and 0 is returned.
pub fn build_telemetry_packet(buf: &mut [u8], frame_type: u8, payload: &[u8]) -> (n: usize)
    requires
        payload@.len() + 4 <= usize::MAX,
    ensures
        old(buf)@.len() < payload@.len() + 4 ==> n == 0 && final(buf)@ == old(buf)@,
        old(buf)@.len() >= payload@.len() + 4 ==> {
            &&& n == payload@.len() + 4
            &&& final(buf)@.len() == old(buf)@.len()
            &&& final(buf)@[0] == CRSF_SYNC
            &&& final(buf)@[1] == (payload@.len() + 2) as u8
            &&& final(buf)@[2] == frame_type
            &&& forall|i: int|
                0 <= i < payload@.len() ==> final(buf)@[3 + i] == payload@[i]
            &&& final(buf)@[3 + payload@.len() as int] == crc8_seq(seq![frame_type] + payload@)
            &&& forall|i: int|
                payload@.len() + 4 <= i < old(buf)@.len() ==> final(buf)@[i] == old(buf)@[i]
        },
{
    let len = 2 + payload.len();
    if buf.len() < len + 2 {
        return 0;
    }

    buf[0] = CRSF_SYNC;
    buf[1] = #[verifier::truncate] (len as u8);
    buf[2] = frame_type;

    let mut i: usize = 0;
    while i < payload.len()
        invariant
            i <= payload@.len(),
            payload@.len() + 4 <= usize::MAX,
            buf@.len() == old(buf)@.len(),
            old(buf)@.len() >= payload@.len() + 4,
            buf@[0] == CRSF_SYNC,
            buf@[1] == (payload@.len() + 2) as u8,
            buf@[2] == frame_type,
            forall|k: int| 0 <= k < i ==> buf@[3 + k] == payload@[k],
            forall|k: int| 3 + payload@.len() <= k < old(buf)@.len() ==> buf@[k] == old(buf)@[k],
        decreases payload@.len() - i,
    {
        buf[3 + i] = payload[i];
        i = i + 1;
    }

    let crc_slice = &buf[2..3 + payload.len()];
    proof {
        assert(crc_slice@ =~= seq![frame_type] + payload@);
    }
    let crc = calc_crc8(crc_slice);
    buf[3 + payload.len()] = crc;

    2 + len
}

// ── Telemetry payloads ──────────────────────────────────────────────────

/// Big-endian bytes of a 16-bit value.
pub open spec fn be16(v: u16) -> Seq<u8> {
    seq![(v >> 8) as u8, v as u8]
}

/// Big-endian bytes of a 32-bit value.
pub open spec fn be32(v: u32) -> Seq<u8> {
    seq![(v >> 24) as u8, (v >> 16) as u8, (v >> 8) as u8, v as u8]
}

/// Flight-mode payload: the mode text, truncated to the 64-byte frame
/// budget, with a terminating NUL while room remains.
pub open spec fn spec_flight_mode_payload(bytes: Seq<u8>) -> Seq<u8> {
    if bytes.len() <= 63 {
        bytes.push(0)
    } else {
        bytes.take(64)
    }
}

/// Null-terminated flight-mode string payload.
pub fn payload_flight_mode(mode: &str) -> (r: Vec<u8>)
    ensures
        r@ == spec_flight_mode_payload(mode.spec_bytes()),
{
    let bytes = mode.as_bytes();
    let mut buf: Vec<u8> = Vec::new();
    let mut i: usize = 0;
    proof {
        assert(buf@ =~= bytes@.take(0));
    }
    while i < bytes.len()
        invariant
            i <= bytes@.len(),
            buf@.len() <= 64,
            buf@ == if i <= 64 { bytes@.take(i as int) } else { bytes@.take(64) },
        decreases bytes@.len() - i,
    {
        if buf.len() < 64 {
            buf.push(bytes[i]);
            proof {
                assert(bytes@.take(i + 1) =~= bytes@.take(i as int).push(bytes@[i as int]));
            }
        }
        i = i + 1;
    }
    if buf.len() < 64 {
        buf.push(0);
        proof {
            assert(bytes@.take(bytes@.len() as int) =~= bytes@);
        }
    } else {
        proof {
            assert(buf@ =~= bytes@.take(64));
        }
    }
    buf
}

/// GPS telemetry payload: latitude and longitude in 1e-7 degrees,
/// ground speed in 0.1 km/h, heading in 0.01 degrees, altitude in metres
/// offset by 1000, and the satellite count; all fields big-endian.
pub fn payload_gps(lat: i32, lon: i32, gspd: u16, hdg: u16, alt: u16, sats: u8) -> (r: [u8; 15])
    ensures
        r@ == be32(lat as u32) + be32(lon as u32) + be16(gspd) + be16(hdg) + be16(alt)
            + seq![sats],
{
    let mut buf = [0u8; 15];
    let latu = lat as u32;
    let lonu = lon as u32;
    buf[0] = (latu >> 24u32) as u8;
    buf[1] = (latu >> 16u32) as u8;
    buf[2] = (latu >> 8u32) as u8;
    buf[3] = latu as u8;
    buf[4] = (lonu >> 24u32) as u8;
    buf[5] = (lonu >> 16u32) as u8;
    buf[6] = (lonu >> 8u32) as u8;
    buf[7] = lonu as u8;
    buf[8] = (gspd >> 8u16) as u8;
    buf[9] = gspd as u8;
    buf[10] = (hdg >> 8u16) as u8;
    buf[11] = hdg as u8;
    buf[12] = (alt >> 8u16) as u8;
    buf[13] = alt as u8;
    buf[14] = sats;
    proof {
        assert(buf@ =~= be32(lat as u32) + be32(lon as u32) + be16(gspd) + be16(hdg) + be16(alt)
            + seq![sats]);
    }
    buf
}

/// Attitude telemetry payload: pitch, roll and yaw in 1e-4 radians,
/// big-endian.
pub fn payload_attitude(pitch: i16, roll: i16, yaw: i16) -> (r: [u8; 6])
    ensures
        r@ == be16(pitch as u16) + be16(roll as u16) + be16(yaw as u16),
{
    let mut buf = [0u8; 6];
    let p = pitch as u16;
    let ro = roll as u16;
    let y = yaw as u16;
    buf[0] = (p >> 8u16) as u8;
    buf[1] = p as u8;
    buf[2] = (ro >> 8u16) as u8;
    buf[3] = ro as u8;
    buf[4] = (y >> 8u16) as u8;
    buf[5] = y as u8;
    proof {
        assert(buf@ =~= be16(pitch as u16) + be16(roll as u16) + be16(yaw as u16));
    }
    buf
}

/// Battery telemetry payload: voltage in 0.1 V, current in 0.1 A, a
/// 24-bit capacity in mAh, and the remaining percentage; big-endian.
pub fn payload_battery(voltage: u16, current: u16, capacity: u32, remaining: u8) -> (r: [u8; 8])
    ensures
        r@ == be16(voltage) + be16(current) + be32(capacity).subrange(1, 4) + seq![remaining],
{
    let mut buf = [0u8; 8];
    buf[0] = (voltage >> 8u16) as u8;
    buf[1] = voltage as u8;
    buf[2] = (current >> 8u16) as u8;
    buf[3] = current as u8;
    buf[4] = (capacity >> 16u32) as u8;
    buf[5] = (capacity >> 8u32) as u8;
    buf[6] = capacity as u8;
    buf[7] = remaining;
    proof {
        assert(buf@ =~= be16(voltage) + be16(current) + be32(capacity).subrange(1, 4)
            + seq![remaining]);
    }
    buf
}

/// Vario telemetry payload: altitude in decimetres offset by 10000, and
/// vertical speed in cm/s; big-endian.
pub fn payload_vario(altitude: u16, vertical_speed: i16) -> (r: [u8; 4])
    ensures
        r@ == be16(altitude) + be16(vertical_speed as u16),
{
    let mut buf = [0u8; 4];
    let vs = vertical_speed as u16;
    buf[0] = (altitude >> 8u16) as u8;
    buf[1] = altitude as u8;
    buf[2] = (vs >> 8u16) as u8;
    buf[3] = vs as u8;
    proof {
        assert(buf@ =~= be16(altitude) + be16(vertical_speed as u16));
    }
    buf
}

/// Barometer telemetry payload: pressure in pascals and temperature in
/// 0.01 degrees, each sent as a big-endian 32-bit field.
pub fn payload_barometer(pressure_pa: u32, temp_c: i16) -> (r: [u8; 8])
    ensures
        r@ == be32(pressure_pa) + be32(temp_c as u32),
{
    let mut buf = [0u8; 8];
    buf[0] = (pressure_pa >> 24u32) as u8;
    buf[1] = (pressure_pa >> 16u32) as u8;
    buf[2] = (pressure_pa >> 8u32) as u8;
    buf[3] = pressure_pa as u8;
    let t = temp_c as i32;
    let tu = t as u32;
    buf[4] = (tu >> 24u32) as u8;
    buf[5] = (tu >> 16u32) as u8;
    buf[6] = (tu >> 8u32) as u8;
    buf[7] = tu as u8;
    proof {
        assert(temp_c as u32 == (temp_c as i32) as u32) by (bit_vector);
        assert(buf@ =~= be32(pressure_pa) + be32(temp_c as u32));
    }
    buf
}

} // verus!
