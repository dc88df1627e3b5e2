//! Verified core of a fin/tab-actuated flight controller.
//!
//! This crate holds the deterministic, integer-valued logic of the
//! controller: the CRSF radio codec, the UBX/NMEA protocol helpers, the
//! DShot frame encoder, the raw-sensor byte decoding, the gear/arming
//! decisions, the startup-calibration accumulator, the telemetry schedule,
//! and the single-slot latest-wins mailboxes that carry sensor data
//! between tasks.  Every function here is verified against its contract.
//! The floating-point estimation chain (attitude filter, vertical Kalman
//! filter, biquads, PID controllers) lives outside the verified library
//! and consumes the values this crate produces.

pub mod calib;
pub mod control;
pub mod crsf;
pub mod dshot;
pub mod gps;
pub mod mailbox;
pub mod sensors;
pub mod telemetry;
