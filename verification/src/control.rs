//! Flight-control decisions that the 1 kHz loop takes from the cached
//! radio frame: whether the vehicle is armed, and which gear ratio the
//! tab drive uses.  The floating-point controllers consume these values.

use vstd::prelude::*;

verus! {

/// RC channel carrying the arm switch.
pub const ARM_CHANNEL: usize = 4;

/// Channel value above which the vehicle is armed.
pub const ARM_THRESHOLD: u16 = 1200;

/// RC channel selecting the gear ratio.
pub const GEAR_CHANNEL: usize = 5;

/// One radio frame: 16 channels of 11-bit values.
#[derive(Debug, Clone, Copy)]
pub struct RcData {
    pub channels: [u16; 16],
}

impl Default for RcData {
    fn default() -> (r: Self)
        ensures
            forall|i: int| 0 <= i < 16 ==> r.channels@[i] == 0,
    {
        RcData { channels: [0u16; 16] }
    }
}

/// Mechanical reduction between the tab motor and the tab surface.
#[derive(Debug, Clone, Copy, PartialEq, Eq, Structural)]
pub enum GearRatio {
    R10,
    R20,
}

impl GearRatio {
    /// Select the ratio from the auxiliary channel: values up to and
    /// including 1500 select 10:1, higher values select 20:1.
    pub fn from_aux_channel(ch_value: u16) -> (r: Self)
        ensures
            r == (if ch_value > 1500 {
                GearRatio::R20
            } else {
                GearRatio::R10
            }),
    {
        if ch_value > 1500 {
            Self::R20
        } else {
            Self::R10
        }
    }

    /// The ratio as an integer.
    pub fn as_u8(self) -> (r: u8)
        ensures
            r == (match self {
                GearRatio::R10 => 10u8,
                GearRatio::R20 => 20u8,
            }),
    {
        match self {
            Self::R10 => 10,
            Self::R20 => 20,
        }
    }
}

/// What one tick of the control loop decides from the radio frame.
#[derive(Debug, Clone, Copy, PartialEq, Eq, Structural)]
pub struct TickCommand {
    /// Armed state; a disarmed tick resets both controllers and forces
    /// zero output.
    pub armed: bool,
    /// Gear ratio selected by the auxiliary channel.
    pub gear: GearRatio,
}

/// The per-tick arming and gear decision: armed above the arm threshold
/// on the arm channel, gear ratio from the gear channel.
pub fn rc_tick_command(rc: &RcData) -> (c: TickCommand)
    ensures
        c.armed == (rc.channels@[ARM_CHANNEL as int] > ARM_THRESHOLD),
        c.gear == (if rc.channels@[GEAR_CHANNEL as int] > 1500 {
            GearRatio::R20
        } else {
            GearRatio::R10
        }),
{
    let armed = rc.channels[ARM_CHANNEL] > ARM_THRESHOLD;
    let gear = GearRatio::from_aux_channel(rc.channels[GEAR_CHANNEL]);
    TickCommand { armed, gear }
}

} // verus!
