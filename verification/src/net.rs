//! The broadcast address of an IPv4 network.
//!
//! The replay datagrams go to the broadcast address of the interface the
//! caller picked: the interface's address with every host bit set.

use vstd::prelude::*;

verus! {

/// The broadcast address of the network `ip`/`prefix`: the address with
/// all bits outside the network prefix set to one.
pub open spec fn broadcast_model(ip: u32, prefix: u32) -> u32 {
    if prefix >= 32 {
        ip
    } else {
        ip | (0xffffffffu32 >> prefix)
    }
}

/// Computes the IPv4 broadcast address of the network `ip`/`prefix`.
pub fn broadcast_addr_v4(ip: u32, prefix: u32) -> (r: u32)
    ensures
        r == broadcast_model(ip, prefix),
{
    if prefix >= 32 {
        ip
    } else {
        ip | (0xffffffffu32 >> prefix)
    }
}

/// The broadcast address agrees with the interface address on every bit of
/// the network prefix: a datagram sent to it stays on that network.
pub proof fn lemma_broadcast_same_network(ip: u32, prefix: u32)
    requires
        prefix <= 32,
    ensures
        prefix < 32 ==> (broadcast_model(ip, prefix) & !(0xffffffffu32 >> prefix)) == (ip & !(
        0xffffffffu32 >> prefix)),
{
    assert(prefix < 32 ==> ((ip | (0xffffffffu32 >> prefix)) & !(0xffffffffu32 >> prefix)) == (ip
        & !(0xffffffffu32 >> prefix))) by (bit_vector);
}

} // verus!
