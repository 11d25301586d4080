//! IPv4 header parsing: the source and destination addresses, which live at
//! fixed offsets 12..19 of the header regardless of any IPv4 options.

use vstd::prelude::*;

verus! {

/// A 32-bit value read big endian from four consecutive octets.
pub open spec fn spec_be32(b: Seq<u8>, off: int) -> u32
    recommends
        0 <= off,
        off + 4 <= b.len(),
{
    (b[off] as u32 * 0x1000000 + b[off + 1] as u32 * 0x10000 + b[off + 2] as u32 * 0x100 + b[off
        + 3] as u32) as u32
}

/// The source address of an IPv4 header: octets 12..15, big endian.
pub open spec fn spec_ipv4_src(b: Seq<u8>) -> u32
    recommends
        b.len() >= 20,
{
    spec_be32(b, 12)
}

/// The destination address of an IPv4 header: octets 16..19, big endian.
pub open spec fn spec_ipv4_dst(b: Seq<u8>) -> u32
    recommends
        b.len() >= 20,
{
    spec_be32(b, 16)
}

/// The addresses of one parsed IPv4 packet.
pub struct V4Packet {
    src_addr: u32,
    dst_addr: u32,
}

impl V4Packet {
    /// The parsed source address.
    pub closed spec fn spec_src(&self) -> u32 {
        self.src_addr
    }

    /// The parsed destination address.
    pub closed spec fn spec_dst(&self) -> u32 {
        self.dst_addr
    }

    /// Parses the addresses out of a raw IPv4 packet.
    pub fn new(raw: &[u8]) -> (r: V4Packet)
        requires
            raw@.len() >= 20,
        ensures
            r.spec_src() == spec_ipv4_src(raw@),
            r.spec_dst() == spec_ipv4_dst(raw@),
    {
        V4Packet { src_addr: read_be32(raw, 12), dst_addr: read_be32(raw, 16) }
    }

    /// Returns the source address of this IPv4 packet.
    pub fn src(&self) -> (r: u32)
        ensures
            r == self.spec_src(),
    {
        self.src_addr
    }

    /// Returns the destination address of this IPv4 packet.
    pub fn dst(&self) -> (r: u32)
        ensures
            r == self.spec_dst(),
    {
        self.dst_addr
    }
}

/// Reads a big-endian 32-bit value at the given offset.
pub fn read_be32(b: &[u8], off: usize) -> (r: u32)
    requires
        off + 4 <= b@.len(),
    ensures
        r == spec_be32(b@, off as int),
{
    (b[off] as u32) * 0x1000000 + (b[off + 1] as u32) * 0x10000 + (b[off + 2] as u32) * 0x100 + (
    b[off + 3] as u32)
}

} // verus!
