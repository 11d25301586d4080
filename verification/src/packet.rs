//! The frame record that moves through the pipeline: capture-time metadata
//! plus the captured prefix of the frame, at most 1500 octets.

use vstd::prelude::*;

verus! {

/// Capture timestamp: seconds and microseconds.
#[allow(non_camel_case_types)]
#[derive(Clone, Copy)]
pub struct timeval {
    pub tv_sec: i64,
    pub tv_usec: i64,
}

/// Per-frame capture metadata: timestamp, captured length, on-wire length.
#[derive(Clone, Copy)]
pub struct PacketHeader {
    /// Time stamp.
    pub ts: timeval,
    /// Length of the portion present in `bytes`.
    pub caplen: u32,
    /// Length of the packet off the wire.
    pub len: u32,
}

/// An owned captured frame: metadata plus the stored prefix of the frame,
/// starting at the Ethernet header.
#[derive(Clone, Copy)]
pub struct Packet {
    /// Capture metadata.
    pub header: PacketHeader,
    /// The captured prefix, zero-padded to the fixed buffer size.
    pub bytes: [u8; 1500],
}

} // verus!
