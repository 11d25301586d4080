//! Byte-order helpers: network order (big endian) to host order.

use vstd::prelude::*;

verus! {

/// The two bytes of a 16-bit word, swapped.
pub open spec fn spec_ntohs(n: u16) -> u16 {
    ((n % 0x100) * 0x100 + n / 0x100) as u16
}

/// The four bytes of a 32-bit word, reversed.
pub open spec fn spec_ntohl(n: u32) -> u32 {
    ((n % 0x100) * 0x1000000 + (n / 0x100 % 0x100) * 0x10000 + (n / 0x10000 % 0x100) * 0x100
        + n / 0x1000000) as u32
}

/// Converts a 16-bit word from network byte order to host byte order.
pub fn ntohs(n: u16) -> (r: u16)
    ensures
        r == spec_ntohs(n),
{
    let r = ((n & 0xFF) << 8) | (n >> 8);
    proof {
        assert(((n & 0xFF) << 8) | (n >> 8) == ((n % 0x100) * 0x100 + n / 0x100) as u16)
            by (bit_vector);
    }
    r
}

/// Converts a 32-bit word from network byte order to host byte order.
pub fn ntohl(n: u32) -> (r: u32)
    ensures
        r == spec_ntohl(n),
{
    let a = (n & 0x000000FF) << 24;
    let b = (n & 0x0000FF00) << 8;
    let c = (n & 0x00FF0000) >> 8;
    let d = (n & 0xFF000000) >> 24;
    proof {
        assert(((n & 0x000000FF) << 24) as u64 + ((n & 0x0000FF00) << 8) as u64 + ((n
            & 0x00FF0000) >> 8) as u64 + ((n & 0xFF000000) >> 24) as u64 == ((n % 0x100)
            * 0x1000000 + (n / 0x100 % 0x100) * 0x10000 + (n / 0x10000 % 0x100) * 0x100 + n
            / 0x1000000) as u64) by (bit_vector);
    }
    a + b + c + d
}

/// Borrows the contents of an owned string as a string slice.
pub fn to_str<'a>(s: &'a String) -> (r: &'a str)
    ensures
        r@ == s@,
{
    s.as_str()
}

} // verus!
