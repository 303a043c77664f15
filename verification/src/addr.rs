//! Network addresses as plain numbers.

use vstd::prelude::*;

verus! {

/// An IP address: IPv4 as its 32-bit value, IPv6 as its 128-bit value (network byte order
/// read as a big-endian number).
#[derive(Debug, Clone, Copy, PartialEq, Eq, Structural)]
pub enum Address {
    V4(u32),
    V6(u128),
}

/// One key per host: an IPv4 peer reached through a dual-stack socket appears IPv4-mapped
/// (`::ffff:a.b.c.d`), and is the same host as `a.b.c.d`.
pub open spec fn canonical_address(a: Address) -> Address {
    match a {
        Address::V6(x) => if x / 0x1_0000_0000 == 0xffff {
            Address::V4((x % 0x1_0000_0000) as u32)
        } else {
            Address::V6(x)
        },
        Address::V4(x) => Address::V4(x),
    }
}

pub fn canonical(a: Address) -> (r: Address)
    ensures
        r == canonical_address(a),
{
    match a {
        Address::V6(x) => if x / 0x1_0000_0000 == 0xffff {
            Address::V4((x % 0x1_0000_0000) as u32)
        } else {
            Address::V6(x)
        },
        Address::V4(x) => Address::V4(x),
    }
}

/// The IPv4-mapped IPv6 form of an IPv4 address.
pub open spec fn mapped(v4: u32) -> u128 {
    (0xffff * 0x1_0000_0000 + v4) as u128
}

/// An address and its IPv4-mapped form are one host, and canonical forms are stable.
pub proof fn lemma_canonical_identifies_mapped(v4: u32)
    ensures
        canonical_address(Address::V6(mapped(v4))) == canonical_address(Address::V4(v4)),
        canonical_address(canonical_address(Address::V6(mapped(v4)))) == canonical_address(
            Address::V4(v4),
        ),
{
    assert(mapped(v4) / 0x1_0000_0000 == 0xffff);
    assert(mapped(v4) % 0x1_0000_0000 == v4);
}

/// Canonicalizing twice is canonicalizing once.
pub proof fn lemma_canonical_idempotent(a: Address)
    ensures
        canonical_address(canonical_address(a)) == canonical_address(a),
{
}

} // verus!
