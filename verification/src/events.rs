//! The shared data model: device kinds, the raw wire-format record, and the
//! unified event type that every decoder feeds into the merged stream.

use vstd::prelude::*;
use crate::gpio::GPIOEvent;

verus! {

/// The physical source kinds a device context can be attached to.
#[derive(Copy, Clone, PartialEq, Eq, Structural, Debug)]
pub enum InputDevice {
    GPIO,
    Multitouch,
    Wacom,
}

/// One fixed-size record of the kernel input wire format: an event type, a
/// code, a signed value and a timestamp. The pipeline only receives such
/// records; it never constructs them.
#[derive(Copy, Clone, PartialEq, Eq, Structural, Debug)]
pub struct RawEventRecord {
    /// Event type: `0` is a synchronization marker, `1` a key event.
    pub etype: u16,
    /// Event code; for key events, identifies the key.
    pub code: u16,
    /// Event value; for key events, non-zero means the key is down.
    pub value: i32,
    /// Timestamp, seconds part.
    pub tv_sec: i64,
    /// Timestamp, microseconds part.
    pub tv_usec: i64,
}

/// The unified output type: one variant per device kind. Only the GPIO
/// decoder is modelled in detail here; the other kinds occupy their place in
/// the union.
#[derive(Copy, Clone, PartialEq, Eq, Structural, Debug)]
pub enum InputEvent {
    /// A debounced physical-button transition.
    GPIO { event: GPIOEvent },
    /// A multitouch frame (decoding detail out of scope).
    Multitouch,
    /// A stylus frame (decoding detail out of scope).
    Wacom,
}

} // verus!
