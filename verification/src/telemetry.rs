//! Telemetry schedule.
//!
//! The telemetry task ticks at 20 Hz and decides each tick which frame to
//! send downlink, spreading the frame kinds over the tick counter.  The
//! battery slot takes precedence over the vario slot it overlaps, and the
//! GPS and attitude slots shadow the barometer and flight-mode slots on
//! the ticks they share.

use vstd::prelude::*;

verus! {

/// Which telemetry frame a tick sends, if any.
#[derive(Debug, Clone, Copy, PartialEq, Eq, Structural)]
pub enum TelemetryKind {
    Idle,
    Battery,
    Gps,
    Attitude,
    Vario,
    Barometer,
    FlightMode,
}

/// The frame kind for a tick: battery every 20 ticks, GPS, attitude and
/// vario on a 4-tick cycle, and barometer and flight-mode slots that the
/// earlier tests shadow.
pub open spec fn spec_telemetry_slot(tick: u32) -> TelemetryKind {
    if tick % 20 == 2 {
        TelemetryKind::Battery
    } else if tick % 4 == 0 {
        TelemetryKind::Gps
    } else if tick % 4 == 1 {
        TelemetryKind::Attitude
    } else if tick % 4 == 2 {
        TelemetryKind::Vario
    } else if tick % 20 == 4 {
        TelemetryKind::Barometer
    } else if tick % 20 == 6 {
        TelemetryKind::FlightMode
    } else {
        TelemetryKind::Idle
    }
}

/// Decide which telemetry frame this tick sends.
pub fn telemetry_slot(tick: u32) -> (k: TelemetryKind)
    ensures
        k == spec_telemetry_slot(tick),
{
    if tick % 20 == 2 {
        TelemetryKind::Battery
    } else if tick % 4 == 0 {
        TelemetryKind::Gps
    } else if tick % 4 == 1 {
        TelemetryKind::Attitude
    } else if tick % 4 == 2 {
        TelemetryKind::Vario
    } else if tick % 20 == 4 {
        TelemetryKind::Barometer
    } else if tick % 20 == 6 {
        TelemetryKind::FlightMode
    } else {
        TelemetryKind::Idle
    }
}

} // verus!
