//! Ethernet framing: locating the encapsulated packet behind the link-layer
//! header, with or without an 802.1Q VLAN tag.

use vstd::prelude::*;

verus! {

/// EtherType of an 802.1Q VLAN-tagged frame.
pub const ETH_P_8021Q: u16 = 0x8100;

/// Size of a plain Ethernet header.
pub const ETH_HDR_LEN: usize = 14;

/// Size of an Ethernet header carrying one 802.1Q VLAN tag.
pub const VLAN_ETH_HDR_LEN: usize = 18;

/// The EtherType: octets 12 and 13 of the frame, read big endian.
pub open spec fn spec_ether_type(b: Seq<u8>) -> u16
    recommends
        b.len() >= 14,
{
    (b[12] as u16 * 0x100 + b[13] as u16) as u16
}

/// Where the encapsulated packet begins: after the VLAN header for a tagged
/// frame, after the plain Ethernet header otherwise.
pub open spec fn spec_inner_offset(b: Seq<u8>) -> int
    recommends
        b.len() >= 14,
{
    if spec_ether_type(b) == ETH_P_8021Q {
        VLAN_ETH_HDR_LEN as int
    } else {
        ETH_HDR_LEN as int
    }
}

/// Cracks open this Ethernet frame to retrieve the inner packet.
pub fn read_inner_packet(outer: &[u8]) -> (r: &[u8])
    requires
        outer@.len() >= ETH_HDR_LEN,
        spec_ether_type(outer@) == ETH_P_8021Q ==> outer@.len() >= VLAN_ETH_HDR_LEN,
    ensures
        r@ == outer@.subrange(spec_inner_offset(outer@), outer@.len() as int),
{
    let proto = (outer[12] as u16) * 0x100 + (outer[13] as u16);
    if proto == ETH_P_8021Q {
        vstd::slice::slice_subrange(outer, VLAN_ETH_HDR_LEN, outer.len())
    } else {
        vstd::slice::slice_subrange(outer, ETH_HDR_LEN, outer.len())
    }
}

} // verus!
