//! The keyed 64-bit hash behind shard selection: SipHash-2-4 with an all-zero
//! key, applied to the four big-endian octets of one IPv4 address.
//!
//! The key is fixed so that the same input file always produces the same
//! shard assignment, run after run.

use vstd::prelude::*;
use vstd::wrapping::u64_specs;

verus! {

/// A 64-bit word rotated left by `r` bits.
pub open spec fn spec_rotl(x: u64, r: u64) -> u64
    recommends
        0 < r < 64,
{
    (x << r) | (x >> ((64 - r) as u64))
}

fn rotl(x: u64, r: u64) -> (out: u64)
    requires
        0 < r < 64,
    ensures
        out == spec_rotl(x, r),
{
    (x << r) | (x >> (64 - r))
}

/// One SipHash round over the four-word internal state.
pub open spec fn spec_sip_round(v: (u64, u64, u64, u64)) -> (u64, u64, u64, u64) {
    let a0 = u64_specs::wrapping_add(v.0, v.1);
    let a1 = spec_rotl(v.1, 13) ^ a0;
    let a0r = spec_rotl(a0, 32);
    let a2 = u64_specs::wrapping_add(v.2, v.3);
    let a3 = spec_rotl(v.3, 16) ^ a2;
    let b0 = u64_specs::wrapping_add(a0r, a3);
    let b3 = spec_rotl(a3, 21) ^ b0;
    let b2 = u64_specs::wrapping_add(a2, a1);
    let b1 = spec_rotl(a1, 17) ^ b2;
    let b2r = spec_rotl(b2, 32);
    (b0, b1, b2r, b3)
}

fn sip_round(v: (u64, u64, u64, u64)) -> (out: (u64, u64, u64, u64))
    ensures
        out == spec_sip_round(v),
{
    let mut v0 = v.0;
    let mut v1 = v.1;
    let mut v2 = v.2;
    let mut v3 = v.3;
    v0 = v0.wrapping_add(v1);
    v1 = rotl(v1, 13);
    v1 = v1 ^ v0;
    v0 = rotl(v0, 32);
    v2 = v2.wrapping_add(v3);
    v3 = rotl(v3, 16);
    v3 = v3 ^ v2;
    v0 = v0.wrapping_add(v3);
    v3 = rotl(v3, 21);
    v3 = v3 ^ v0;
    v2 = v2.wrapping_add(v1);
    v1 = rotl(v1, 17);
    v1 = v1 ^ v2;
    v2 = rotl(v2, 32);
    (v0, v1, v2, v3)
}

/// The single message word of a four-octet SipHash input: the length byte 4
/// in the top octet, then the four big-endian octets of `i` packed little
/// endian below it.
pub open spec fn spec_msg_word(i: u32) -> u64 {
    (4u64 << 56) | (((i >> 24) as u64) & 0xff) | ((((i >> 16) as u64) & 0xff) << 8) | ((((i
        >> 8) as u64) & 0xff) << 16) | (((i as u64) & 0xff) << 24)
}

/// SipHash-2-4, all-zero key, of the four big-endian octets of `i`.
pub open spec fn spec_hash_u32(i: u32) -> u64 {
    let b = spec_msg_word(i);
    let v = (0x736f6d6570736575u64, 0x646f72616e646f6du64, 0x6c7967656e657261u64, (
    0x7465646279746573u64) ^ b);
    let w = spec_sip_round(spec_sip_round(v));
    let u = (w.0 ^ b, w.1, w.2 ^ 0xff, w.3);
    let z = spec_sip_round(spec_sip_round(spec_sip_round(spec_sip_round(u))));
    z.0 ^ z.1 ^ z.2 ^ z.3
}

/// Hashes one IPv4 address with the pipeline's fixed keyed hash.
pub fn hash_u32(i: u32) -> (r: u64)
    ensures
        r == spec_hash_u32(i),
{
    let b: u64 = (4u64 << 56) | (((i >> 24) as u64) & 0xff) | ((((i >> 16) as u64) & 0xff) << 8)
        | ((((i >> 8) as u64) & 0xff) << 16) | (((i as u64) & 0xff) << 24);
    let v = (0x736f6d6570736575u64, 0x646f72616e646f6du64, 0x6c7967656e657261u64, (
    0x7465646279746573u64) ^ b);
    let w = sip_round(sip_round(v));
    let u = (w.0 ^ b, w.1, w.2 ^ 0xff, w.3);
    let z = sip_round(sip_round(sip_round(sip_round(u))));
    z.0 ^ z.1 ^ z.2 ^ z.3
}

} // verus!
