//! Known message IDs.
use vstd::prelude::*;

verus! {

/// IMU control, payload `[streams, rate]`.
pub const IMU_CTRL: u16 = 0x0301;

/// Serial number (plaintext ASCII).
pub const SERIAL: u16 = 0x3002;

/// Firmware version (ASCII).
pub const VERSION: u16 = 0x3003;

/// Brightness level.
pub const BRIGHTNESS: u16 = 0x3122;

/// Display duty cycle in percent.
pub const DUTY_CYCLE: u16 = 0x3125;

/// Display mode, see [`crate::DisplayMode`].
pub const DISPLAY_MODE: u16 = 0x3141;

/// Volume level.
pub const VOLUME: u16 = 0x3201;

/// Wear status, 0 = not worn.
pub const WEAR_STATUS: u16 = 0x3321;

/// Event: fused orientation (quaternion).
pub const EVT_POSE: u16 = 0x7308;

/// Event: raw data (gyroscope + accelerometer).
pub const EVT_RAW: u16 = 0x7309;

} // verus!
