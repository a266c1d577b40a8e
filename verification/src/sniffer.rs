//! The sniffer's decisions: which packets matter, and the per-connection
//! state that hands out the fake ClientHello once and records when the
//! server proves it ignored the fake — the moment the forwarder may relay.
//!
//! `classify` is deliberately a pure function: the interesting logic is
//! checkable without a raw socket or root.
use crate::netpkt::{
    build_fake_packet, fake_template_ok, is_ipv4_tcp, parse_ipv4_tcp, spec_fake_packet,
    tcp_view_of, TcpView, ACK, FIN, RST, SYN,
};
use crate::checksum::be16;
use crate::filter::{
    bpf_eval, field, ip_value, lemma_upstream_only_verdict, spec_upstream_only, upstream_frame,
    ACCEPT, PROGRAM_LEN,
};
use crate::netpkt::ihl_of;
use std::collections::HashMap;
use vstd::prelude::*;

verus! {

broadcast use vstd::std_specs::hash::group_hash_axioms;

/// What one captured packet means for the connection it belongs to.
#[derive(Debug, PartialEq, Eq, Structural)]
pub enum Action {
    Ignore,
    /// Our outbound SYN: a new connection begins, `isn` is its ISN.
    NewConnection { port: u16, isn: u32 },
    /// Our outbound third-handshake ACK: inject now.
    InjectFake { port: u16 },
    /// An inbound bare ACK that may prove the fake was ignored.
    ConfirmFake { port: u16, ack: u32 },
}

/// A packet from `local` to the upstream address and port.
pub open spec fn is_outbound(v: TcpView, local_ip: [u8; 4], connect_ip: [u8; 4], connect_port: u16) -> bool {
    v.src_ip@ == local_ip@ && v.dst_ip@ == connect_ip@ && v.dst_port == connect_port
}

/// A packet from the upstream address and port to `local`.
pub open spec fn is_inbound(v: TcpView, local_ip: [u8; 4], connect_ip: [u8; 4], connect_port: u16) -> bool {
    v.src_ip@ == connect_ip@ && v.dst_ip@ == local_ip@ && v.src_port == connect_port
}

/// ACK set, none of SYN, FIN or RST, and no payload.
pub open spec fn is_bare_ack(v: TcpView) -> bool {
    v.flags & ACK != 0 && v.flags & (SYN | FIN | RST) == 0 && v.payload_len == 0
}

/// The meaning of a packet: an outbound SYN without ACK opens a
/// connection, an outbound bare ACK triggers injection, an inbound bare ACK
/// is a confirmation candidate, and everything else is ignored.
pub open spec fn spec_classify(
    v: TcpView,
    local_ip: [u8; 4],
    connect_ip: [u8; 4],
    connect_port: u16,
) -> Action {
    if is_outbound(v, local_ip, connect_ip, connect_port) && v.flags & SYN != 0 && v.flags & ACK
        == 0 {
        Action::NewConnection { port: v.src_port, isn: v.seq }
    } else if is_outbound(v, local_ip, connect_ip, connect_port) && is_bare_ack(v) {
        Action::InjectFake { port: v.src_port }
    } else if is_inbound(v, local_ip, connect_ip, connect_port) && is_bare_ack(v) {
        Action::ConfirmFake { port: v.dst_port, ack: v.ack }
    } else {
        Action::Ignore
    }
}

fn same_ip(a: &[u8; 4], b: &[u8; 4]) -> (r: bool)
    ensures
        r == (a@ == b@),
{
    let r = a[0] == b[0] && a[1] == b[1] && a[2] == b[2] && a[3] == b[3];
    if r {
        assert(a@ =~= b@);
    }
    r
}

/// The upstream is matched as an **address and a port**, not an address alone:
/// any other process on this host talking to the same server would otherwise
/// be registered in the port table and — worse — have a spoofed segment
/// injected into its connection by a process running as root.
pub fn classify(v: &TcpView, local_ip: [u8; 4], connect_ip: [u8; 4], connect_port: u16) -> (r:
    Action)
    ensures
        r == spec_classify(*v, local_ip, connect_ip, connect_port),
        ({
            let outbound = v.src_ip@ == local_ip@ && v.dst_ip@ == connect_ip@ && v.dst_port
                == connect_port;
            let inbound = v.src_ip@ == connect_ip@ && v.dst_ip@ == local_ip@ && v.src_port
                == connect_port;
            let syn_only = v.flags & 0x02 != 0 && v.flags & 0x10 == 0;
            let bare_ack = v.flags & 0x10 != 0 && v.flags & 0x07 == 0 && v.payload_len == 0;
            &&& outbound && syn_only ==> r == Action::NewConnection { port: v.src_port, isn: v.seq }
            &&& outbound && bare_ack ==> r == Action::InjectFake { port: v.src_port }
            &&& inbound && !outbound && bare_ack ==> r == Action::ConfirmFake {
                port: v.dst_port,
                ack: v.ack,
            }
            &&& !(outbound && (syn_only || bare_ack)) && !(inbound && bare_ack) ==> r
                == Action::Ignore
        }),
{
    proof {
        lemma_classify_reads_the_flag_bits(*v, local_ip, connect_ip, connect_port);
    }
    let outbound = same_ip(&v.src_ip, &local_ip) && same_ip(&v.dst_ip, &connect_ip) && v.dst_port
        == connect_port;
    let inbound = same_ip(&v.src_ip, &connect_ip) && same_ip(&v.dst_ip, &local_ip) && v.src_port
        == connect_port;
    let bare_ack = v.flags & ACK != 0 && v.flags & (SYN | FIN | RST) == 0 && v.payload_len == 0;

    if outbound {
        if v.flags & SYN != 0 && v.flags & ACK == 0 {
            return Action::NewConnection { port: v.src_port, isn: v.seq };
        }
        if bare_ack {
            return Action::InjectFake { port: v.src_port };
        }
    }
    if inbound && bare_ack {
        return Action::ConfirmFake { port: v.dst_port, ack: v.ack };
    }
    Action::Ignore
}

/// The classification law, over the raw flag bits: an outbound segment with
/// SYN (0x02) set and ACK (0x10) clear opens a connection whatever other
/// flags ride along (ECE, CWR, PSH, URG); an outbound segment with ACK set,
/// none of FIN, SYN, RST (0x07) and no payload triggers injection; the same
/// segment inbound is a confirmation candidate; nothing else matters.
pub proof fn lemma_classify_reads_the_flag_bits(
    v: TcpView,
    local_ip: [u8; 4],
    connect_ip: [u8; 4],
    connect_port: u16,
)
    ensures
        ({
            let r = spec_classify(v, local_ip, connect_ip, connect_port);
            let outbound = v.src_ip@ == local_ip@ && v.dst_ip@ == connect_ip@ && v.dst_port
                == connect_port;
            let inbound = v.src_ip@ == connect_ip@ && v.dst_ip@ == local_ip@ && v.src_port
                == connect_port;
            let syn_only = v.flags & 0x02 != 0 && v.flags & 0x10 == 0;
            let bare_ack = v.flags & 0x10 != 0 && v.flags & 0x07 == 0 && v.payload_len == 0;
            &&& outbound && syn_only ==> r == Action::NewConnection { port: v.src_port, isn: v.seq }
            &&& outbound && bare_ack ==> r == Action::InjectFake { port: v.src_port }
            &&& inbound && !outbound && bare_ack ==> r == Action::ConfirmFake {
                port: v.dst_port,
                ack: v.ack,
            }
            &&& !(outbound && (syn_only || bare_ack)) && !(inbound && bare_ack) ==> r
                == Action::Ignore
        }),
{
    assert(SYN | FIN | RST == 0x07u8) by (bit_vector);
}

/// One connection's state: its ISN, the fake waiting to be injected,
/// whether it has been, and whether the server has confirmed it.
struct PortState {
    isn: u32,
    fake: Option<Vec<u8>>,
    fake_sent: bool,
    confirmed: bool,
}

/// The abstract state of one connection: ISN, the fake still held (if any),
/// whether the fake was handed out, and whether the connection is confirmed
/// (its latch opened, in the forwarder's terms).
pub type PortEntry = (u32, Option<Seq<u8>>, bool, bool);

impl View for PortState {
    type V = PortEntry;

    closed spec fn view(&self) -> PortEntry {
        (
            self.isn,
            match self.fake {
                Some(f) => Some(f@),
                None => None,
            },
            self.fake_sent,
            self.confirmed,
        )
    }
}

/// Connection state keyed by the local ephemeral port, which is the only
/// identifier both the sniffer and the forwarder have.
pub struct PortTable {
    inner: HashMap<u16, PortState>,
}

impl View for PortTable {
    type V = Map<u16, PortEntry>;

    closed spec fn view(&self) -> Map<u16, PortEntry> {
        self.inner@.map_values(|s: PortState| s@)
    }
}

/// The entry a freshly registered connection gets.
pub open spec fn fresh_entry(isn: u32, fake: Seq<u8>) -> PortEntry {
    (isn, Some(fake), false, false)
}

/// What a call of `take_for_injection` hands out for `port`: the ISN and
/// the fake, the first time only.
pub open spec fn spec_take(m: Map<u16, PortEntry>, port: u16) -> Option<(u32, Seq<u8>)> {
    if m.contains_key(port) && !m[port].2 && m[port].1 is Some {
        Some((m[port].0, m[port].1->0))
    } else {
        None
    }
}

/// The table after `take_for_injection(port)`.
pub open spec fn after_take(m: Map<u16, PortEntry>, port: u16) -> Map<u16, PortEntry> {
    if spec_take(m, port) is Some {
        m.insert(port, (m[port].0, None, true, m[port].3))
    } else {
        m
    }
}

/// Whether `ack` confirms `port`: the fake went out and the server
/// acknowledges ISN+1, i.e. it is still expecting the real first byte.
pub open spec fn spec_confirms(m: Map<u16, PortEntry>, port: u16, ack: u32) -> bool {
    m.contains_key(port) && m[port].2 && ack as int == (m[port].0 as int + 1) % 4294967296
}

/// The table after `confirm(port, ack)`.
pub open spec fn after_confirm(m: Map<u16, PortEntry>, port: u16, ack: u32) -> Map<u16, PortEntry> {
    if spec_confirms(m, port, ack) {
        m.insert(port, (m[port].0, m[port].1, m[port].2, true))
    } else {
        m
    }
}

impl PortTable {
    /// An empty table.
    pub fn new() -> (t: PortTable)
        ensures
            t@ == Map::<u16, PortEntry>::empty(),
    {
        let t = PortTable { inner: HashMap::new() };
        assert(t@ =~= Map::<u16, PortEntry>::empty());
        t
    }

    /// Records a new connection, replacing whatever a previous use of the
    /// same port left behind.
    pub fn register(&mut self, port: u16, isn: u32, fake: Vec<u8>)
        ensures
            final(self)@ == old(self)@.insert(port, fresh_entry(isn, fake@)),
    {
        let st = PortState { isn, fake: Some(fake), fake_sent: false, confirmed: false };
        self.inner.insert(port, st);
        assert(self@ =~= old(self)@.insert(port, fresh_entry(isn, fake@)));
    }

    /// Hands the fake payload out exactly once per connection, together with
    /// the ISN it must be sequenced against.
    pub fn take_for_injection(&mut self, port: u16) -> (r: Option<(u32, Vec<u8>)>)
        ensures
            match r {
                Some((isn, fake)) => spec_take(old(self)@, port) == Some((isn, fake@)),
                None => spec_take(old(self)@, port) is None,
            },
            final(self)@ == after_take(old(self)@, port),
    {
        match self.inner.remove(&port) {
            None => {
                assert(self@ =~= old(self)@);
                None
            },
            Some(st) => {
                assert(old(self)@.contains_key(port) && old(self)@[port] == st@);
                if st.fake_sent {
                    self.inner.insert(port, st);
                    assert(self@ =~= old(self)@);
                    return None;
                }
                match st.fake {
                    None => {
                        self.inner.insert(
                            port,
                            PortState { isn: st.isn, fake: None, fake_sent: false, confirmed: st.confirmed },
                        );
                        assert(self@ =~= old(self)@);
                        None
                    },
                    Some(fake) => {
                        let ghost f = fake@;
                        self.inner.insert(
                            port,
                            PortState { isn: st.isn, fake: None, fake_sent: true, confirmed: st.confirmed },
                        );
                        assert(self@ =~= after_take(old(self)@, port));
                        Some((st.isn, fake))
                    },
                }
            },
        }
    }

    /// True when this ACK proves the server ignored the fake and is still
    /// expecting the real byte stream. Marks the connection confirmed.
    pub fn confirm(&mut self, port: u16, ack: u32) -> (r: bool)
        ensures
            r == spec_confirms(old(self)@, port, ack),
            final(self)@ == after_confirm(old(self)@, port, ack),
    {
        match self.inner.remove(&port) {
            None => {
                assert(self@ =~= old(self)@);
                false
            },
            Some(st) => {
                assert(old(self)@.contains_key(port) && old(self)@[port] == st@);
                let expected = ((st.isn as u64 + 1) % 4294967296) as u32;
                if !st.fake_sent || ack != expected {
                    self.inner.insert(port, st);
                    assert(self@ =~= old(self)@);
                    return false;
                }
                self.inner.insert(
                    port,
                    PortState { isn: st.isn, fake: st.fake, fake_sent: st.fake_sent, confirmed: true },
                );
                assert(self@ =~= after_confirm(old(self)@, port, ack));
                true
            },
        }
    }

    /// Whether `port`'s connection is confirmed, if the port is registered.
    pub fn confirmed(&self, port: u16) -> (r: Option<bool>)
        ensures
            match r {
                Some(c) => self@.contains_key(port) && c == self@[port].3,
                None => !self@.contains_key(port),
            },
    {
        match self.inner.get(&port) {
            Some(st) => Some(st.confirmed),
            None => None,
        }
    }

    /// Forgets `port`.
    pub fn remove(&mut self, port: u16)
        ensures
            final(self)@ == old(self)@.remove(port),
    {
        let _ = self.inner.remove(&port);
        assert(self@ =~= old(self)@.remove(port));
    }
}

impl Default for PortTable {
    fn default() -> (t: PortTable)
        ensures
            t@ == Map::<u16, PortEntry>::empty(),
    {
        PortTable::new()
    }
}

/// Law: the fake is handed out at most once per registration — a second
/// `take_for_injection` of the same port hands out nothing.
pub proof fn lemma_fake_handed_out_once(m: Map<u16, PortEntry>, port: u16)
    ensures
        spec_take(after_take(m, port), port) is None,
{
}

/// Law: a freshly registered connection hands its own fake and ISN out.
pub proof fn lemma_register_then_take(m: Map<u16, PortEntry>, port: u16, isn: u32, fake: Seq<u8>)
    ensures
        spec_take(m.insert(port, fresh_entry(isn, fake)), port) == Some((isn, fake)),
{
}

/// Law: no acknowledgement confirms a connection before its fake was
/// handed out.
pub proof fn lemma_no_confirmation_before_injection(
    m: Map<u16, PortEntry>,
    port: u16,
    isn: u32,
    fake: Seq<u8>,
    ack: u32,
)
    ensures
        !spec_confirms(m.insert(port, fresh_entry(isn, fake)), port, ack),
{
}

/// Law: once the fake was handed out, exactly the acknowledgement of ISN+1
/// confirms the connection, and confirming marks it confirmed.
pub proof fn lemma_confirmation_after_injection(
    m: Map<u16, PortEntry>,
    port: u16,
    isn: u32,
    fake: Seq<u8>,
    ack: u32,
)
    ensures
        ({
            let m1 = after_take(m.insert(port, fresh_entry(isn, fake)), port);
            &&& spec_confirms(m1, port, ack) <==> ack as int == (isn as int + 1) % 4294967296
            &&& spec_confirms(m1, port, ack) ==> after_confirm(m1, port, ack)[port].3
        }),
{
}

/// Law: a connection becomes confirmed only through a confirmation —
/// taking the fake and refused confirmations leave every connection's
/// confirmation as it was, and confirmation touches no other port.
pub proof fn lemma_confirmed_only_by_confirmation(
    m: Map<u16, PortEntry>,
    port: u16,
    other: u16,
    ack: u32,
)
    requires
        m.contains_key(other),
    ensures
        after_take(m, port)[other].3 == m[other].3,
        !spec_confirms(m, port, ack) ==> after_confirm(m, port, ack) == m,
        other != port ==> after_confirm(m, port, ack)[other] == m[other],
{
}

/// What the capture loop must do after one packet.
#[derive(Debug)]
pub enum SniffOutcome {
    /// Nothing: not our traffic, or nothing left to do for it.
    Nothing,
    /// A new connection: build its fake ClientHello and register it.
    Register { port: u16, isn: u32 },
    /// Transmit this fake packet (the IP layer, link header to be re-attached).
    Inject { port: u16, packet: Vec<u8> },
    /// The fake was taken but the ACK cannot serve as its template; the
    /// connection will time out unconfirmed.
    MalformedTemplate { port: u16 },
    /// The server acknowledged ISN+1: the forwarder may relay.
    Confirmed { port: u16 },
}

/// One turn of the sniff loop: classify the packet `ip` and apply it to the
/// table. Returns the packet's action (for the debug log) and what the loop
/// must do next.
pub fn sniff_step(
    table: &mut PortTable,
    ip: &[u8],
    local_ip: [u8; 4],
    connect_ip: [u8; 4],
    connect_port: u16,
) -> (r: (Action, SniffOutcome))
    ensures
        !is_ipv4_tcp(ip@) ==> r.0 == Action::Ignore && r.1 is Nothing && final(table)@ == old(
            table,
        )@,
        is_ipv4_tcp(ip@) ==> r.0 == spec_classify(
            tcp_view_of(ip@),
            local_ip,
            connect_ip,
            connect_port,
        ),
        is_ipv4_tcp(ip@) ==> match r.0 {
            Action::Ignore => r.1 is Nothing && final(table)@ == old(table)@,
            Action::NewConnection { port, isn } => r.1 == SniffOutcome::Register { port, isn }
                && final(table)@ == old(table)@,
            Action::InjectFake { port } => {
                &&& final(table)@ == after_take(old(table)@, port)
                &&& match spec_take(old(table)@, port) {
                    None => r.1 is Nothing,
                    Some((isn, fake)) => if fake_template_ok(ip@) {
                        r.1 matches SniffOutcome::Inject { port: p, packet } && p == port
                            && packet@ == spec_fake_packet(ip@, isn, fake)
                    } else {
                        r.1 == SniffOutcome::MalformedTemplate { port }
                    },
                }
            },
            Action::ConfirmFake { port, ack } => {
                &&& final(table)@ == after_confirm(old(table)@, port, ack)
                &&& if spec_confirms(old(table)@, port, ack) {
                    r.1 == SniffOutcome::Confirmed { port }
                } else {
                    r.1 is Nothing
                }
            },
        },
{
    let view = match parse_ipv4_tcp(ip) {
        Some(v) => v,
        None => return (Action::Ignore, SniffOutcome::Nothing),
    };
    let action = classify(&view, local_ip, connect_ip, connect_port);
    match action {
        Action::Ignore => (Action::Ignore, SniffOutcome::Nothing),
        Action::NewConnection { port, isn } => (
            Action::NewConnection { port, isn },
            SniffOutcome::Register { port, isn },
        ),
        Action::InjectFake { port } => {
            let taken = table.take_for_injection(port);
            match taken {
                None => (Action::InjectFake { port }, SniffOutcome::Nothing),
                Some((isn, fake)) => {
                    match build_fake_packet(ip, isn, fake.as_slice()) {
                        Some(packet) => (
                            Action::InjectFake { port },
                            SniffOutcome::Inject { port, packet },
                        ),
                        None => (Action::InjectFake { port }, SniffOutcome::MalformedTemplate { port }),
                    }
                },
            }
        },
        Action::ConfirmFake { port, ack } => {
            let ok = table.confirm(port, ack);
            if ok {
                (Action::ConfirmFake { port, ack }, SniffOutcome::Confirmed { port })
            } else {
                (Action::ConfirmFake { port, ack }, SniffOutcome::Nothing)
            }
        },
    }
}

/// The bytes of `f` at `at` read by a kernel load of one, two or four bytes.
proof fn lemma_field_bytes(f: Seq<u8>, at: int)
    requires
        0 <= at,
        at + 4 <= f.len(),
    ensures
        field(f, at, 1) == Some(f[at] as int),
        field(f, at, 2) == Some(be16(f[at], f[at + 1])),
        field(f, at, 4) == Some(
            ((f[at] as int * 256 + f[at + 1] as int) * 256 + f[at + 2] as int) * 256 + f[at
                + 3] as int,
        ),
{
    reveal_with_fuel(field, 5);
}

/// The kernel filter never drops a packet the sniffer acts on: an Ethernet
/// frame carrying an IPv4/TCP packet that is a first (or only) fragment and
/// that `classify` does not ignore is accepted by [`crate::filter::upstream_only`].
pub proof fn lemma_filter_keeps_what_classify_acts_on(
    eth: Seq<u8>,
    ip: Seq<u8>,
    local_ip: [u8; 4],
    connect_ip: [u8; 4],
    connect_port: u16,
)
    requires
        eth.len() == 14,
        eth[12] == 8 && eth[13] == 0,
        is_ipv4_tcp(ip),
        be16(ip[6], ip[7]) % 8192 == 0,
        spec_classify(tcp_view_of(ip), local_ip, connect_ip, connect_port) != Action::Ignore,
    ensures
        upstream_frame(eth + ip, connect_ip, connect_port),
        bpf_eval(spec_upstream_only(connect_ip, connect_port), eth + ip, 0, 0, 0, PROGRAM_LEN as nat)
            == Some(ACCEPT),
{
    let f = eth + ip;
    let v = tcp_view_of(ip);
    let h = ihl_of(ip);
    assert(forall|k: int| 0 <= k < ip.len() ==> f[14 + k] == ip[k]);
    assert(f[12] == 8 && f[13] == 0);
    lemma_field_bytes(f, 12);
    lemma_field_bytes(f, 20);
    lemma_field_bytes(f, 26);
    lemma_field_bytes(f, 30);
    lemma_field_bytes(f, 14 + h);
    lemma_field_bytes(f, 14);
    assert(field(f, 14, 1) == Some(ip[0] as int));
    assert(field(f, 23, 1) == Some(ip[9] as int)) by {
        lemma_field_bytes(f, 23);
    }
    assert(4 * (ip[0] % 16) == h);
    assert(field(f, 16 + h, 2) == Some(be16(ip[h + 2], ip[h + 3]))) by {
        lemma_field_bytes(f, 16 + h);
        assert(f[16 + h] == ip[h + 2] && f[17 + h] == ip[h + 3]);
    }
    assert(field(f, 14 + h, 2) == Some(be16(ip[h], ip[h + 1])));
    assert(v.dst_ip@ == seq![ip[16], ip[17], ip[18], ip[19]]);
    assert(v.src_ip@ == seq![ip[12], ip[13], ip[14], ip[15]]);
    if is_outbound(v, local_ip, connect_ip, connect_port) {
        assert(connect_ip[0] == ip[16] && connect_ip[1] == ip[17] && connect_ip[2] == ip[18]
            && connect_ip[3] == ip[19]) by {
            assert(v.dst_ip@[0] == connect_ip@[0] && v.dst_ip@[1] == connect_ip@[1]);
            assert(v.dst_ip@[2] == connect_ip@[2] && v.dst_ip@[3] == connect_ip@[3]);
        }
        assert(field(f, 30, 4) == Some(ip_value(connect_ip)));
        assert(field(f, 16 + h, 2) == Some(connect_port as int));
    } else {
        assert(is_inbound(v, local_ip, connect_ip, connect_port));
        assert(connect_ip[0] == ip[12] && connect_ip[1] == ip[13] && connect_ip[2] == ip[14]
            && connect_ip[3] == ip[15]) by {
            assert(v.src_ip@[0] == connect_ip@[0] && v.src_ip@[1] == connect_ip@[1]);
            assert(v.src_ip@[2] == connect_ip@[2] && v.src_ip@[3] == connect_ip@[3]);
        }
        assert(field(f, 26, 4) == Some(ip_value(connect_ip)));
        assert(field(f, 14 + h, 2) == Some(connect_port as int));
    }
    lemma_upstream_only_verdict(connect_ip, connect_port, f);
}

/// One call on a [`PortTable`], as far as the table's contents go.
pub enum TableOp {
    Register { port: u16, isn: u32, fake: Seq<u8> },
    TakeForInjection { port: u16 },
    Confirm { port: u16, ack: u32 },
    Confirmed { port: u16 },
    Remove { port: u16 },
}

/// The table after one call, as that call's contract gives it.
pub open spec fn table_step(m: Map<u16, PortEntry>, op: TableOp) -> Map<u16, PortEntry> {
    match op {
        TableOp::Register { port, isn, fake } => m.insert(port, fresh_entry(isn, fake)),
        TableOp::TakeForInjection { port } => after_take(m, port),
        TableOp::Confirm { port, ack } => after_confirm(m, port, ack),
        TableOp::Confirmed { .. } => m,
        TableOp::Remove { port } => m.remove(port),
    }
}

/// The table after a sequence of calls.
pub open spec fn table_after(m: Map<u16, PortEntry>, ops: Seq<TableOp>) -> Map<u16, PortEntry>
    decreases ops.len(),
{
    if ops.len() == 0 {
        m
    } else {
        table_step(table_after(m, ops.drop_last()), ops.last())
    }
}

/// The call registers or removes `port`.
pub open spec fn resets(op: TableOp, port: u16) -> bool {
    match op {
        TableOp::Register { port: q, .. } => q == port,
        TableOp::Remove { port: q } => q == port,
        _ => false,
    }
}

/// The call takes `port`'s fake.
pub open spec fn takes(op: TableOp, port: u16) -> bool {
    match op {
        TableOp::TakeForInjection { port: q } => q == port,
        _ => false,
    }
}

/// Law over whole call sequences: once `port` is registered with `isn` and
/// `fake`, the next `take_for_injection(port)` hands out exactly those,
/// whatever calls come in between that neither take, register nor remove
/// `port` — confirmations and other ports' calls included.
pub proof fn lemma_registered_fake_waits_for_its_take(
    m: Map<u16, PortEntry>,
    port: u16,
    isn: u32,
    fake: Seq<u8>,
    ops: Seq<TableOp>,
)
    requires
        forall|i: int| 0 <= i < ops.len() ==> !resets(#[trigger] ops[i], port) && !takes(ops[i], port),
    ensures
        table_after(m.insert(port, fresh_entry(isn, fake)), ops).contains_key(port),
        table_after(m.insert(port, fresh_entry(isn, fake)), ops)[port] == fresh_entry(isn, fake),
        spec_take(table_after(m.insert(port, fresh_entry(isn, fake)), ops), port) == Some((isn, fake)),
    decreases ops.len(),
{
    if ops.len() > 0 {
        let init = ops.drop_last();
        assert forall|i: int| 0 <= i < init.len() implies !resets(#[trigger] init[i], port)
            && !takes(init[i], port) by {
            assert(init[i] == ops[i]);
        }
        lemma_registered_fake_waits_for_its_take(m, port, isn, fake, init);
        assert(!resets(ops[ops.len() - 1], port) && !takes(ops[ops.len() - 1], port));
    }
}

/// Law over whole call sequences: when `port` has no fake to hand out —
/// never registered, removed, or its fake already taken — no sequence of
/// calls that does not register `port` again gives it one: every later
/// `take_for_injection(port)` returns `None`.
pub proof fn lemma_no_fake_until_registered(m: Map<u16, PortEntry>, port: u16, ops: Seq<TableOp>)
    requires
        spec_take(m, port) is None,
        forall|i: int|
            0 <= i < ops.len() ==> !(#[trigger] ops[i] matches TableOp::Register { port: q, .. }
                && q == port),
    ensures
        spec_take(table_after(m, ops), port) is None,
    decreases ops.len(),
{
    if ops.len() > 0 {
        let init = ops.drop_last();
        assert forall|i: int| 0 <= i < init.len() implies !(#[trigger] init[i] matches TableOp::Register {
            port: q,
            ..
        } && q == port) by {
            assert(init[i] == ops[i]);
        }
        lemma_no_fake_until_registered(m, port, init);
        let last = ops[ops.len() - 1];
        assert(!(last matches TableOp::Register { port: q, .. } && q == port));
    }
}

/// A fresh table hands out no fake for any port.
pub proof fn lemma_empty_table_has_no_fake(port: u16)
    ensures
        spec_take(Map::<u16, PortEntry>::empty(), port) is None,
{
}

} // verus!
