//! Network devices that exchange packets with the simulated network.
use crate::addr::IpAddr;
use vstd::prelude::*;

verus! {

/// A device that sends and receives packets.
pub trait PacketDevice {
    /// What the device moves.
    type Packet;

    /// The device's primary address.
    spec fn primary_address(&self) -> IpAddr;

    /// The device's primary address. Devices that support multiple addresses
    /// (for example IPv4 and IPv6) should also override `has_address`.
    fn get_address(&self) -> (r: IpAddr)
        ensures
            r == self.primary_address(),
    ;

    /// Whether this device handles packets addressed to `addr`; unless a device
    /// overrides it, exactly its primary address.
    fn has_address(&self, addr: IpAddr) -> (r: bool)
        default_ensures
            r == (addr == self.primary_address()),
    {
        self.get_address() == addr
    }

    fn pop(&self) -> Option<Self::Packet>;

    fn push(&self, packet: Self::Packet);
}

} // verus!
