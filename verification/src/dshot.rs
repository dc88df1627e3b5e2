//! DShot frame encoding.
//!
//! A frame is sixteen bits: an 11-bit command, a telemetry-request bit,
//! and a 4-bit checksum, the xor of the three nibbles of the command and
//! telemetry bits.

use vstd::prelude::*;

verus! {

/// The command and telemetry bits of a frame: the command truncated to
/// 11 bits, shifted left, with the telemetry request in the low bit.
pub open spec fn dshot_packet(command: u16, telemetry: bool) -> u16 {
    if telemetry {
        ((command & 0x07FF) << 1) | 1
    } else {
        (command & 0x07FF) << 1
    }
}

/// The 4-bit checksum: xor of the packet's three nibbles.
pub open spec fn dshot_checksum(packet: u16) -> u16 {
    (packet ^ (packet >> 4) ^ (packet >> 8)) & 0x000F
}

/// A whole frame: packet bits, then the checksum nibble.
pub open spec fn spec_dshot_frame(command: u16, telemetry: bool) -> u16 {
    (dshot_packet(command, telemetry) << 4) | dshot_checksum(dshot_packet(command, telemetry))
}

/// Encode an 11-bit command and a telemetry request into a 16-bit DShot
/// frame.
pub fn dshot_frame(command: u16, telemetry: bool) -> (r: u16)
    ensures
        r == spec_dshot_frame(command, telemetry),
{
    let mut packet = (command & 0x07FF) << 1u16;
    if telemetry {
        packet = packet | 1;
    }

    let mut csum: u16 = 0;
    let mut csum_data = packet;
    let mut j: usize = 0;
    while j < 3
        invariant
            j <= 3,
            packet == dshot_packet(command, telemetry),
            j == 0 ==> csum == 0 && csum_data == packet,
            j == 1 ==> csum == (0u16 ^ packet) && csum_data == packet >> 4,
            j == 2 ==> csum == ((0u16 ^ packet) ^ (packet >> 4)) && csum_data == (packet >> 4)
                >> 4,
            j == 3 ==> csum == (((0u16 ^ packet) ^ (packet >> 4)) ^ ((packet >> 4) >> 4)),
        decreases 3 - j,
    {
        csum = csum ^ csum_data;
        csum_data = csum_data >> 4u16;
        j = j + 1;
    }
    csum = csum & 0x000F;
    proof {
        let p = dshot_packet(command, telemetry);
        assert((((0u16 ^ p) ^ (p >> 4)) ^ ((p >> 4) >> 4)) & 0x000F == (p ^ (p >> 4) ^ (p >> 8))
            & 0x000F) by (bit_vector);
    }

    (packet << 4u16) | csum
}

} // verus!
