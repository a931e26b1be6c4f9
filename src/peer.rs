use vstd::prelude::*;

verus! {

/// The address of a remote peer: an IPv4 or IPv6 address, as a number, and a TCP port.
#[derive(Debug, Clone, Copy, PartialEq, Eq, Hash, Structural)]
pub enum PeerAddr {
    V4(u32, u16),
    V6(u128, u16),
}

} // verus!
