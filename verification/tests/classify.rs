use std::hash::Hasher;

use prism::V4Packet;
use prism::hash_u32;
use prism::ntohl;
use prism::ntohs;
use prism::read_inner_packet;
use prism::shard_index;
use prism::to_str;

#[test]
#[allow(deprecated)]
fn hash_matches_the_standard_library_sip_hash() {
    // SipHash-2-4 with an all-zero key over the four big-endian octets is
    // exactly what the standard library's zero-keyed SipHasher computes.
    for &i in &[0u32, 1, 2, 0x0A000001, 0x0A000002, 0xC0A80001, 0xFFFFFFFF] {
        let mut h = std::hash::SipHasher::new();
        h.write(&i.to_be_bytes());
        assert_eq!(hash_u32(i), h.finish());
    }
}

#[test]
fn hash_known_value() {
    assert_eq!(hash_u32(1), 7743489813434578935);
}

#[test]
fn hash_is_symmetric_in_the_pair() {
    let a = 0x0A000001u32;
    let b = 0x0A000002u32;
    assert_eq!(hash_u32(a) ^ hash_u32(b), hash_u32(b) ^ hash_u32(a));
}

#[test]
fn shard_index_is_deterministic_and_in_range() {
    let mut bytes = vec![0u8; 64];
    bytes[12] = 0x08;
    bytes[26..30].copy_from_slice(&0x0A000001u32.to_be_bytes());
    bytes[30..34].copy_from_slice(&0x0A000002u32.to_be_bytes());
    for n in 1..9usize {
        let first = shard_index(&bytes, n);
        assert!(first < n);
        assert_eq!(first, shard_index(&bytes, n));
    }
}

#[test]
fn short_frames_go_to_shard_zero() {
    let short = [0u8; 10];
    assert_eq!(shard_index(&short, 4), 0);
    // Long enough for the Ethernet header but not for the IPv4 addresses.
    let torn = [0u8; 20];
    assert_eq!(shard_index(&torn, 4), 0);
}

#[test]
fn inner_packet_starts_after_the_ethernet_header() {
    let mut bytes = vec![0u8; 40];
    bytes[12] = 0x08;
    bytes[13] = 0x00;
    bytes[14] = 0x45;
    let inner = read_inner_packet(&bytes);
    assert_eq!(inner.len(), 26);
    assert_eq!(inner[0], 0x45);
}

#[test]
fn vlan_inner_packet_starts_after_the_tag() {
    let mut bytes = vec![0u8; 44];
    bytes[12] = 0x81;
    bytes[13] = 0x00;
    bytes[18] = 0x45;
    let inner = read_inner_packet(&bytes);
    assert_eq!(inner.len(), 26);
    assert_eq!(inner[0], 0x45);
}

#[test]
fn v4packet_parses_both_addresses() {
    let mut raw = vec![0u8; 20];
    raw[12..16].copy_from_slice(&0xC0A80001u32.to_be_bytes());
    raw[16..20].copy_from_slice(&0x08080808u32.to_be_bytes());
    let p = V4Packet::new(&raw);
    assert_eq!(p.src(), 0xC0A80001);
    assert_eq!(p.dst(), 0x08080808);
}

#[test]
fn ntohs_swaps_the_two_bytes() {
    assert_eq!(ntohs(0x1234), 0x3412);
    assert_eq!(ntohs(0x00FF), 0xFF00);
    assert_eq!(ntohs(0), 0);
}

#[test]
fn ntohl_reverses_the_four_bytes() {
    assert_eq!(ntohl(0x12345678), 0x78563412);
    assert_eq!(ntohl(0x000000FF), 0xFF000000);
    assert_eq!(ntohl(0), 0);
}

#[test]
fn to_str_borrows_the_same_text() {
    let s = String::from("capture.pcap");
    assert_eq!(to_str(&s), "capture.pcap");
}
