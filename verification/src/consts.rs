use vstd::prelude::*;

verus! {

/// Largest number of counters one read or write request may address.
pub const COUNTERS_MAX_REQUEST_LEN: u16 = 32;

/// Largest number of flags one read or write request may address.
pub const FLAGS_MAX_REQUEST_LEN: u16 = 128;

/// Largest number of inputs one read request may address.
pub const INPUTS_MAX_REQUEST_LEN: u16 = 32;

/// Largest number of outputs one read or write request may address.
pub const OUTPUTS_MAX_REQUEST_LEN: u16 = 32;

/// Largest number of registers one read or write request may address.
pub const REGISTERS_MAX_REQUEST_LEN: u16 = 32;

/// Largest number of timers one read or write request may address.
pub const TIMERS_MAX_REQUEST_LEN: u16 = 32;

/// Default UDP port of the device.
pub const DEFAULT_PORT: u16 = 5050;

/// The broadcast station used only to query the station number.
pub const BROADCAST_STATION: u8 = 254;

} // verus!
