//! The packet a capture backend hands up, at the IP layer.
//!
//! Linux and macOS capture Ethernet frames, so their backends strip the
//! 14-byte header on receive and keep it to put back on send; Windows
//! captures at the network layer and never has one. Everything above the
//! backends only ever touches `ip`.
use vstd::prelude::*;

verus! {

/// How long a backend may block in a receive before it reports a timeout:
/// the sniff loop's worst-case delay in noticing a stop request, in seconds.
pub const RECV_TIMEOUT_SECS: u64 = 1;

pub struct Captured {
    /// The link-layer header to re-attach on transmit, if the backend uses one.
    pub l2: Option<[u8; 14]>,
    /// The IPv4 packet, header onward.
    pub ip: Vec<u8>,
}

impl Captured {
    /// Empties the packet. The buffer's allocation is kept: the sniff loop
    /// reuses one `Captured` for the life of the process.
    pub fn clear(&mut self)
        ensures
            final(self).l2 is None,
            final(self).ip@ == Seq::<u8>::empty(),
    {
        self.l2 = None;
        self.ip.clear();
    }
}

impl Default for Captured {
    /// No link header and an empty packet.
    fn default() -> (c: Captured)
        ensures
            c.l2 is None,
            c.ip@ == Seq::<u8>::empty(),
    {
        Captured { l2: None, ip: Vec::new() }
    }
}

/// The ARP hardware type of an Ethernet interface.
pub const ARPHRD_ETHER: u16 = 1;

/// Whether a packet-socket backend can use the interface: the pipeline
/// strips and re-attaches a 14-byte Ethernet header, so a tun/VPN or
/// loopback interface would classify nothing and every connection would be
/// aborted unconfirmed.
pub fn is_ethernet(hatype: u16) -> (r: bool)
    ensures
        r == (hatype == ARPHRD_ETHER),
{
    hatype == ARPHRD_ETHER
}

} // verus!
