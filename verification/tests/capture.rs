use snifake::capture::{is_ethernet, Captured, RECV_TIMEOUT_SECS};
use snifake::forward::{abort_message, relay_decision, Egress, Relay, CONFIRM_TIMEOUT_MS, REGISTER_TIMEOUT_MS};
use snifake::transport::{pipe_name, socket_file_name, Endpoint};
use snifake::windivert::filter_for;
use std::time::Duration;

#[test]
fn captured_defaults_to_no_link_header_and_an_empty_packet() {
    let c = Captured::default();
    assert!(c.l2.is_none());
    assert!(c.ip.is_empty());
}

#[test]
fn captured_reuses_its_buffer_across_receives() {
    let mut c = Captured::default();
    c.ip.extend_from_slice(&[1, 2, 3, 4]);
    let cap = c.ip.capacity();
    c.clear();
    assert!(c.ip.is_empty());
    assert!(c.l2.is_none());
    assert_eq!(c.ip.capacity(), cap, "clear() must keep the allocation");
}

#[test]
fn clear_drops_the_link_header_too() {
    let mut c = Captured::default();
    c.l2 = Some([7u8; 14]);
    c.ip.push(0x45);
    c.clear();
    assert!(c.l2.is_none());
    assert!(c.ip.is_empty());
}

#[test]
fn the_recv_timeout_is_one_second() {
    assert_eq!(Duration::from_secs(RECV_TIMEOUT_SECS), Duration::from_secs(1));
}

#[test]
fn the_filter_pins_both_directions_of_the_upstream_flow() {
    let f = filter_for([104, 18, 4, 130], 443);
    assert_eq!(
        f,
        "tcp and ((ip.DstAddr == 104.18.4.130 and tcp.DstPort == 443) or \
         (ip.SrcAddr == 104.18.4.130 and tcp.SrcPort == 443))"
    );
}

#[test]
fn the_filter_writes_zero_octets_and_large_ports() {
    let f = filter_for([0, 0, 0, 0], 65535);
    assert_eq!(
        f,
        "tcp and ((ip.DstAddr == 0.0.0.0 and tcp.DstPort == 65535) or \
         (ip.SrcAddr == 0.0.0.0 and tcp.SrcPort == 65535))"
    );
}

#[test]
fn confirm_timeout_matches_the_original_implementation() {
    assert_eq!(Duration::from_millis(CONFIRM_TIMEOUT_MS), Duration::from_secs(2));
}

#[test]
fn the_register_timeout_is_a_tenth_of_a_second() {
    assert_eq!(Duration::from_millis(REGISTER_TIMEOUT_MS), Duration::from_millis(100));
}

#[test]
fn an_egress_carries_its_fields() {
    let e = Egress { local_ip: [192, 168, 1, 10], iface_name: "eth0".to_string(), iface_index: 2 };
    assert_eq!(e.local_ip, [192, 168, 1, 10]);
    assert_eq!(e.iface_name, "eth0");
    assert_eq!(e.iface_index, 2);
}

#[test]
fn an_endpoint_reads_back_its_name() {
    let e = Endpoint::new("/tmp/sni-fake-00ff.sock".to_string());
    assert_eq!(e.as_str(), "/tmp/sni-fake-00ff.sock");
}

#[test]
fn channel_names_carry_the_token() {
    assert_eq!(socket_file_name("0123abcd"), "sni-fake-0123abcd.sock");
    assert_eq!(pipe_name("0123abcd"), r"\\.\pipe\sni-fake-0123abcd");
}

#[test]
fn only_a_registered_and_confirmed_connection_is_relayed() {
    assert_eq!(relay_decision(true, true), Relay::Relay);
    assert_eq!(relay_decision(true, false), Relay::Unconfirmed);
    assert_eq!(relay_decision(false, false), Relay::SnifferNeverSaw);
    assert_eq!(relay_decision(false, true), Relay::SnifferNeverSaw);
    assert_eq!(
        abort_message(51000, &Relay::SnifferNeverSaw),
        "conn #51000  sniffer never saw this connection, aborting"
    );
    assert_eq!(
        abort_message(7, &Relay::Unconfirmed),
        "conn #7  timeout waiting for the server to ack ISN+1, aborting"
    );
}

#[test]
fn only_ethernet_interfaces_are_usable() {
    assert!(is_ethernet(1));
    assert!(!is_ethernet(772));
    assert!(!is_ethernet(65534));
}
