//! The filter the Windows capture backend opens WinDivert with.
use crate::text::{decimal, push_char, push_decimal};
use vstd::prelude::*;

verus! {

/// An IPv4 address in dotted-quad decimal.
pub open spec fn dotted(ip: [u8; 4]) -> Seq<char> {
    decimal(ip[0] as nat) + seq!['.'] + decimal(ip[1] as nat) + seq!['.'] + decimal(
        ip[2] as nat,
    ) + seq!['.'] + decimal(ip[3] as nat)
}

/// The WinDivert filter for both directions of the flow to `ip:port`.
pub open spec fn filter_text(ip: [u8; 4], port: u16) -> Seq<char> {
    "tcp and ((ip.DstAddr == "@ + dotted(ip) + " and tcp.DstPort == "@ + decimal(port as nat)
        + ") or (ip.SrcAddr == "@ + dotted(ip) + " and tcp.SrcPort == "@ + decimal(port as nat)
        + "))"@
}

fn push_dotted(s: &mut String, ip: [u8; 4])
    ensures
        final(s)@ == old(s)@ + dotted(ip),
{
    push_decimal(s, ip[0] as u128);
    push_char(s, '.');
    push_decimal(s, ip[1] as u128);
    push_char(s, '.');
    push_decimal(s, ip[2] as u128);
    push_char(s, '.');
    push_decimal(s, ip[3] as u128);
    assert(final(s)@ =~= old(s)@ + dotted(ip));
}

/// Both directions of exactly the flow we care about, so the kernel does the
/// first pass of filtering and userspace never sees unrelated traffic.
pub fn filter_for(ip: [u8; 4], port: u16) -> (r: String)
    ensures
        r@ == filter_text(ip, port),
{
    let mut s = String::from_str("tcp and ((ip.DstAddr == ");
    push_dotted(&mut s, ip);
    s.append(" and tcp.DstPort == ");
    push_decimal(&mut s, port as u128);
    s.append(") or (ip.SrcAddr == ");
    push_dotted(&mut s, ip);
    s.append(" and tcp.SrcPort == ");
    push_decimal(&mut s, port as u128);
    s.append("))");
    assert(s@ =~= filter_text(ip, port));
    s
}

} // verus!
