//! What the forwarder needs to know about the route to the upstream, and
//! how long it waits on the sniffer.
use crate::text::{decimal, push_decimal};
use vstd::prelude::*;

verus! {

/// How long to wait for the server's ACK of ISN+1 before giving up, in
/// milliseconds. There is no fallback: without the confirmation the fake
/// probably never landed, and relaying anyway would expose the real SNI.
pub const CONFIRM_TIMEOUT_MS: u64 = 2000;

/// How long to wait for the sniffer to register a connection it has not seen
/// the SYN of yet, in milliseconds. The dial has already completed by then,
/// so this only covers the scheduling gap between the two threads.
pub const REGISTER_TIMEOUT_MS: u64 = 100;

/// The source address and interface the kernel uses to reach the upstream.
pub struct Egress {
    pub local_ip: [u8; 4],
    pub iface_name: String,
    pub iface_index: u32,
}

/// What becomes of a dialed connection.
#[derive(Debug, PartialEq, Eq, Structural)]
pub enum Relay {
    /// Relay bytes both ways: the sniffer registered the connection and the
    /// server confirmed it ignored the fake.
    Relay,
    /// Close it: the sniffer never saw its SYN within the registration wait.
    SnifferNeverSaw,
    /// Close it: the server did not acknowledge ISN+1 within the confirm
    /// wait, so the fake probably never landed and relaying would expose the
    /// real SNI.
    Unconfirmed,
}

/// The forwarder's decision, given whether the sniffer registered the
/// connection in time and whether its latch opened in time.
pub open spec fn spec_relay(registered: bool, confirmed: bool) -> Relay {
    if !registered {
        Relay::SnifferNeverSaw
    } else if !confirmed {
        Relay::Unconfirmed
    } else {
        Relay::Relay
    }
}

/// Decides whether a dialed connection is relayed. Nothing is relayed
/// before the server has confirmed the fake.
pub fn relay_decision(registered: bool, confirmed: bool) -> (r: Relay)
    ensures
        r == spec_relay(registered, confirmed),
        r == Relay::Relay <==> registered && confirmed,
{
    if !registered {
        Relay::SnifferNeverSaw
    } else if !confirmed {
        Relay::Unconfirmed
    } else {
        Relay::Relay
    }
}

/// The log line a closed connection leaves, keyed on its local port.
pub open spec fn abort_text(port: u16, why: Relay) -> Seq<char> {
    "conn #"@ + decimal(port as nat) + match why {
        Relay::SnifferNeverSaw => "  sniffer never saw this connection, aborting"@,
        _ => "  timeout waiting for the server to ack ISN+1, aborting"@,
    }
}

/// Why a connection was closed, for the log.
pub fn abort_message(port: u16, why: &Relay) -> (r: String)
    requires
        *why != Relay::Relay,
    ensures
        r@ == abort_text(port, *why),
{
    let mut s = String::from_str("conn #");
    push_decimal(&mut s, port as u128);
    match why {
        Relay::SnifferNeverSaw => s.append("  sniffer never saw this connection, aborting"),
        _ => s.append("  timeout waiting for the server to ack ISN+1, aborting"),
    }
    s
}

} // verus!
