//! The frame classifier: from raw captured bytes to a shard index in
//! `[0, n)`, as a pure function of the frame's IPv4 address pair.

use vstd::prelude::*;

use crate::ether::ETH_HDR_LEN;
use crate::ether::ETH_P_8021Q;
use crate::ether::VLAN_ETH_HDR_LEN;
use crate::ether::read_inner_packet;
use crate::ether::spec_ether_type;
use crate::ether::spec_inner_offset;
use crate::hash::hash_u32;
use crate::hash::spec_hash_u32;
use crate::ip::V4Packet;
use crate::ip::spec_ipv4_dst;
use crate::ip::spec_ipv4_src;

verus! {

/// Whether the captured prefix is long enough to carry an Ethernet header
/// (tagged or not) followed by the fixed 20 octets of an IPv4 header.
pub open spec fn spec_classifiable(b: Seq<u8>) -> bool {
    b.len() >= 14 && b.len() >= spec_inner_offset(b) + 20
}

/// The source address of the encapsulated IPv4 packet.
pub open spec fn spec_frame_src(b: Seq<u8>) -> u32
    recommends
        spec_classifiable(b),
{
    spec_ipv4_src(b.subrange(spec_inner_offset(b), b.len() as int))
}

/// The destination address of the encapsulated IPv4 packet.
pub open spec fn spec_frame_dst(b: Seq<u8>) -> u32
    recommends
        spec_classifiable(b),
{
    spec_ipv4_dst(b.subrange(spec_inner_offset(b), b.len() as int))
}

/// The flow hash: the keyed hashes of the two addresses combined with XOR,
/// so that swapping source and destination leaves the hash unchanged.
pub open spec fn spec_flow_hash(b: Seq<u8>) -> u64
    recommends
        spec_classifiable(b),
{
    spec_hash_u32(spec_frame_src(b)) ^ spec_hash_u32(spec_frame_dst(b))
}

/// The shard a frame is routed to. A frame too short to classify is routed
/// to shard 0: a fixed, deterministic choice that cannot crash the pipeline.
pub open spec fn spec_shard_of(b: Seq<u8>, n: usize) -> usize
    recommends
        n >= 1,
{
    if spec_classifiable(b) {
        (spec_flow_hash(b) as nat % n as nat) as usize
    } else {
        0
    }
}

/// Classifies a raw captured frame: returns the index of the shard, in
/// `[0, n)`, that the frame must be routed to.
pub fn shard_index(bytes: &[u8], n: usize) -> (r: usize)
    requires
        n >= 1,
    ensures
        r == spec_shard_of(bytes@, n),
        r < n,
{
    let len = bytes.len();
    if len < ETH_HDR_LEN {
        return 0;
    }
    let proto = (bytes[12] as u16) * 0x100 + (bytes[13] as u16);
    let offset = if proto == ETH_P_8021Q {
        VLAN_ETH_HDR_LEN
    } else {
        ETH_HDR_LEN
    };
    if len < offset + 20 {
        return 0;
    }
    let inner = read_inner_packet(bytes);
    let ip = V4Packet::new(inner);
    let h = hash_u32(ip.src()) ^ hash_u32(ip.dst());
    (h % (n as u64)) as usize
}

/// Flow affinity: two classifiable frames whose unordered IPv4 address pairs
/// are equal are routed to the same shard, whatever the shard count.
pub proof fn lemma_flow_affinity(b1: Seq<u8>, b2: Seq<u8>, n: usize)
    requires
        n >= 1,
        spec_classifiable(b1),
        spec_classifiable(b2),
        set![spec_frame_src(b1), spec_frame_dst(b1)] == set![
            spec_frame_src(b2),
            spec_frame_dst(b2),
        ],
    ensures
        spec_shard_of(b1, n) == spec_shard_of(b2, n),
{
    let s1 = spec_frame_src(b1);
    let d1 = spec_frame_dst(b1);
    let s2 = spec_frame_src(b2);
    let d2 = spec_frame_dst(b2);
    assert(set![s1, d1].contains(s1));
    assert(set![s1, d1].contains(d1));
    assert(set![s2, d2].contains(s2));
    assert(set![s2, d2].contains(d2));
    assert((s1 == s2 && d1 == d2) || (s1 == d2 && d1 == s2));
    let hs1 = spec_hash_u32(s1);
    let hd1 = spec_hash_u32(d1);
    assert(hs1 ^ hd1 == hd1 ^ hs1) by (bit_vector);
}

} // verus!
