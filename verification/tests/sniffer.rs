use snifake::netpkt::{parse_ipv4_tcp, ACK, PSH, SYN};
use snifake::sniffer::{classify, sniff_step, Action, PortTable, SniffOutcome};

const LOCAL: [u8; 4] = [192, 168, 1, 10];
const REMOTE: [u8; 4] = [104, 18, 4, 130];

#[allow(clippy::too_many_arguments)]
fn packet(
    src: [u8; 4],
    dst: [u8; 4],
    sport: u16,
    dport: u16,
    seq: u32,
    ack: u32,
    flags: u8,
    payload: usize,
) -> Vec<u8> {
    let mut p = vec![0u8; 40 + payload];
    p[0] = 0x45;
    p[2..4].copy_from_slice(&((40 + payload) as u16).to_be_bytes());
    p[9] = 6;
    p[12..16].copy_from_slice(&src);
    p[16..20].copy_from_slice(&dst);
    p[20..22].copy_from_slice(&sport.to_be_bytes());
    p[22..24].copy_from_slice(&dport.to_be_bytes());
    p[24..28].copy_from_slice(&seq.to_be_bytes());
    p[28..32].copy_from_slice(&ack.to_be_bytes());
    p[32] = 5 << 4;
    p[33] = flags;
    p
}

#[test]
fn outbound_syn_opens_a_connection() {
    let p = packet(LOCAL, REMOTE, 51000, 443, 900, 0, SYN, 0);
    let v = parse_ipv4_tcp(&p).unwrap();
    assert!(matches!(
        classify(&v, LOCAL, REMOTE, 443),
        Action::NewConnection { port: 51000, isn: 900 }
    ));
}

#[test]
fn outbound_bare_ack_triggers_injection() {
    let p = packet(LOCAL, REMOTE, 51000, 443, 901, 5, ACK, 0);
    let v = parse_ipv4_tcp(&p).unwrap();
    assert!(matches!(classify(&v, LOCAL, REMOTE, 443), Action::InjectFake { port: 51000 }));
}

#[test]
fn outbound_ack_with_payload_is_not_the_handshake_ack() {
    let p = packet(LOCAL, REMOTE, 51000, 443, 901, 5, ACK | PSH, 12);
    let v = parse_ipv4_tcp(&p).unwrap();
    assert!(matches!(classify(&v, LOCAL, REMOTE, 443), Action::Ignore));
}

#[test]
fn inbound_bare_ack_is_a_confirmation_candidate() {
    let p = packet(REMOTE, LOCAL, 443, 51000, 5, 901, ACK, 0);
    let v = parse_ipv4_tcp(&p).unwrap();
    assert!(matches!(
        classify(&v, LOCAL, REMOTE, 443),
        Action::ConfirmFake { port: 51000, ack: 901 }
    ));
}

#[test]
fn traffic_to_an_unrelated_host_is_ignored() {
    let p = packet(LOCAL, [1, 1, 1, 1], 51000, 443, 900, 0, SYN, 0);
    let v = parse_ipv4_tcp(&p).unwrap();
    assert!(matches!(classify(&v, LOCAL, REMOTE, 443), Action::Ignore));
}

#[test]
fn table_hands_out_the_fake_exactly_once() {
    let mut t = PortTable::default();
    t.register(51000, 900, vec![0xAA; 517]);
    assert!(t.take_for_injection(51000).is_some());
    assert!(t.take_for_injection(51000).is_none(), "injection must not repeat");
}

#[test]
fn confirmation_requires_the_fake_to_have_been_sent_and_the_right_ack() {
    let mut t = PortTable::default();
    t.register(51000, 900, vec![0xAA; 517]);
    assert!(!t.confirm(51000, 901), "not confirmed before the fake is sent");
    t.take_for_injection(51000);
    assert!(!t.confirm(51000, 12345), "wrong ack number must not confirm");
    assert!(t.confirm(51000, 901), "ack == isn + 1 confirms");
}

#[test]
fn gate_times_out_when_never_opened() {
    let mut t = PortTable::default();
    t.register(51000, 900, vec![0xAA; 517]);
    assert_eq!(t.confirmed(51000), Some(false));
}

#[test]
fn gate_releases_once_confirmed() {
    let mut t = PortTable::default();
    t.register(51000, 900, vec![0xAA; 517]);
    t.take_for_injection(51000);
    assert_eq!(t.confirmed(51000), Some(false));
    t.confirm(51000, 901);
    assert_eq!(t.confirmed(51000), Some(true));
}

#[test]
fn the_upstream_port_must_match_in_both_directions() {
    let out = packet(LOCAL, REMOTE, 51000, 8443, 900, 0, SYN, 0);
    let v = parse_ipv4_tcp(&out).unwrap();
    assert!(matches!(classify(&v, LOCAL, REMOTE, 443), Action::Ignore));

    let out_ack = packet(LOCAL, REMOTE, 51000, 8443, 901, 5, ACK, 0);
    let v = parse_ipv4_tcp(&out_ack).unwrap();
    assert!(matches!(classify(&v, LOCAL, REMOTE, 443), Action::Ignore));

    let inb = packet(REMOTE, LOCAL, 8443, 51000, 5, 901, ACK, 0);
    let v = parse_ipv4_tcp(&inb).unwrap();
    assert!(matches!(classify(&v, LOCAL, REMOTE, 443), Action::Ignore));
}

#[test]
fn removing_a_port_forgets_it() {
    let mut t = PortTable::new();
    t.register(51000, 900, vec![1, 2, 3]);
    t.remove(51000);
    assert!(t.confirmed(51000).is_none());
    assert!(t.take_for_injection(51000).is_none());
    assert!(!t.confirm(51000, 901));
}

#[test]
fn registering_again_replaces_the_old_connection() {
    let mut t = PortTable::new();
    t.register(51000, 900, vec![1]);
    t.take_for_injection(51000);
    t.register(51000, 5000, vec![2, 2]);
    let (isn, fake) = t.take_for_injection(51000).unwrap();
    assert_eq!(isn, 5000);
    assert_eq!(fake, vec![2, 2]);
}

#[test]
fn one_handshake_walks_through_the_sniff_steps() {
    let mut t = PortTable::new();
    let syn = packet(LOCAL, REMOTE, 51000, 443, 900, 0, SYN, 0);
    let (a, o) = sniff_step(&mut t, &syn, LOCAL, REMOTE, 443);
    assert!(matches!(a, Action::NewConnection { port: 51000, isn: 900 }));
    assert!(matches!(o, SniffOutcome::Register { port: 51000, isn: 900 }));
    t.register(51000, 900, vec![0xAA; 517]);

    let ack = packet(LOCAL, REMOTE, 51000, 443, 901, 5, ACK, 0);
    let (_, o) = sniff_step(&mut t, &ack, LOCAL, REMOTE, 443);
    match o {
        SniffOutcome::Inject { port, packet } => {
            assert_eq!(port, 51000);
            assert_eq!(packet.len(), 40 + 517);
        }
        other => panic!("expected an injection, got {other:?}"),
    }
    // The same ACK seen again injects nothing.
    let (_, o) = sniff_step(&mut t, &ack, LOCAL, REMOTE, 443);
    assert!(matches!(o, SniffOutcome::Nothing));

    let confirm = packet(REMOTE, LOCAL, 443, 51000, 5, 901, ACK, 0);
    let (_, o) = sniff_step(&mut t, &confirm, LOCAL, REMOTE, 443);
    assert!(matches!(o, SniffOutcome::Confirmed { port: 51000 }));
    assert_eq!(t.confirmed(51000), Some(true));
}

#[test]
fn a_non_tcp_packet_is_ignored_by_the_sniff_step() {
    let mut t = PortTable::new();
    let mut udp = packet(LOCAL, REMOTE, 51000, 443, 900, 0, SYN, 0);
    udp[9] = 17;
    let (a, o) = sniff_step(&mut t, &udp, LOCAL, REMOTE, 443);
    assert!(matches!(a, Action::Ignore));
    assert!(matches!(o, SniffOutcome::Nothing));
}

#[test]
fn a_fake_waits_through_other_calls_until_taken() {
    let mut t = PortTable::new();
    assert!(t.take_for_injection(51000).is_none());
    t.register(51000, 900, vec![1, 2]);
    t.register(51001, 5, vec![9]);
    assert!(!t.confirm(51000, 901));
    t.take_for_injection(51001);
    t.remove(51001);
    assert!(t.confirmed(51000).is_some());
    assert_eq!(t.take_for_injection(51000), Some((900, vec![1, 2])));
    t.confirm(51000, 901);
    assert!(t.take_for_injection(51000).is_none());
    assert!(t.take_for_injection(51001).is_none());
}
