use snifake::netpkt::{build_fake_packet, ip_checksum, parse_ipv4_tcp, tcp_checksum, ACK, PSH};

/// A minimal IPv4 + TCP third-handshake ACK: 20-byte IP header, 20-byte TCP
/// header, no options, no payload.
fn sample_ack() -> Vec<u8> {
    let mut p = vec![0u8; 40];
    p[0] = 0x45;
    p[2..4].copy_from_slice(&40u16.to_be_bytes());
    p[4..6].copy_from_slice(&0x1234u16.to_be_bytes());
    p[8] = 64;
    p[9] = 6;
    p[12..16].copy_from_slice(&[192, 168, 1, 10]);
    p[16..20].copy_from_slice(&[104, 18, 4, 130]);
    p[20..22].copy_from_slice(&51000u16.to_be_bytes());
    p[22..24].copy_from_slice(&443u16.to_be_bytes());
    p[24..28].copy_from_slice(&1001u32.to_be_bytes());
    p[28..32].copy_from_slice(&2001u32.to_be_bytes());
    p[32] = 5 << 4;
    p[33] = ACK;
    p
}

#[test]
fn parses_an_ipv4_tcp_packet() {
    let p = sample_ack();
    let v = parse_ipv4_tcp(&p).unwrap();
    assert_eq!(v.src_ip, [192, 168, 1, 10]);
    assert_eq!(v.dst_ip, [104, 18, 4, 130]);
    assert_eq!(v.src_port, 51000);
    assert_eq!(v.dst_port, 443);
    assert_eq!(v.seq, 1001);
    assert_eq!(v.ack, 2001);
    assert_eq!(v.flags & ACK, ACK);
    assert_eq!(v.payload_len, 0);
}

#[test]
fn rejects_non_ipv4_and_non_tcp() {
    let mut p = sample_ack();
    p[0] = 0x65;
    assert!(parse_ipv4_tcp(&p).is_none());
    let mut p = sample_ack();
    p[9] = 17;
    assert!(parse_ipv4_tcp(&p).is_none());
    assert!(parse_ipv4_tcp(&[0u8; 10]).is_none());
}

#[test]
fn ip_checksum_of_a_header_with_a_correct_checksum_folds_to_zero() {
    let mut p = sample_ack();
    let ck = ip_checksum(&p[..20]);
    p[10..12].copy_from_slice(&ck.to_be_bytes());
    assert_eq!(ip_checksum(&p[..20]), 0, "a correct header re-sums to zero");
}

#[test]
fn tcp_checksum_of_a_correct_segment_folds_to_zero() {
    let mut p = sample_ack();
    let ck = tcp_checksum(&p[..20].to_vec(), &p[20..].to_vec());
    p[36..38].copy_from_slice(&ck.to_be_bytes());
    assert_eq!(tcp_checksum(&p[..20].to_vec(), &p[20..].to_vec()), 0);
}

#[test]
fn fake_packet_sits_before_the_receive_window() {
    let tpl = sample_ack();
    let fake = vec![0xAAu8; 517];
    let isn = 1000u32;
    let out = build_fake_packet(&tpl, isn, &fake).unwrap();

    assert_eq!(out.len(), 40 + 517);
    assert_eq!(u16::from_be_bytes([out[2], out[3]]), (40 + 517) as u16);
    assert_eq!(u16::from_be_bytes([out[4], out[5]]), 0x1235);
    assert_eq!(
        u32::from_be_bytes([out[24], out[25], out[26], out[27]]),
        isn.wrapping_add(1).wrapping_sub(517)
    );
    assert_eq!(out[33] & PSH, PSH);
    assert_eq!(&out[40..], &fake[..]);
    assert_eq!(ip_checksum(&out[..20]), 0);
    assert_eq!(tcp_checksum(&out[..20].to_vec(), &out[20..].to_vec()), 0);
}

#[test]
fn the_ip_checksum_of_a_known_header() {
    // The worked example from RFC 1071's companion literature: this header
    // carries 0xb861 in its checksum field.
    let mut h = vec![
        0x45, 0x00, 0x00, 0x73, 0x00, 0x00, 0x40, 0x00, 0x40, 0x11, 0x00, 0x00, 0xc0, 0xa8, 0x00,
        0x01, 0xc0, 0xa8, 0x00, 0xc7,
    ];
    assert_eq!(ip_checksum(&h), 0xb861);
    h[10] = 0xb8;
    h[11] = 0x61;
    assert_eq!(ip_checksum(&h), 0);
}

#[test]
fn a_template_too_short_to_be_a_segment_builds_nothing() {
    assert!(build_fake_packet(&[0x45u8; 10], 1, &[1, 2, 3]).is_none());
    assert!(build_fake_packet(&[], 1, &[1, 2, 3]).is_none());
}

#[test]
fn the_payload_of_a_parsed_segment_is_counted() {
    let mut p = sample_ack();
    p.extend_from_slice(&[0u8; 12]);
    let v = parse_ipv4_tcp(&p).unwrap();
    assert_eq!(v.payload_len, 12);
}

#[test]
fn a_fake_longer_than_an_ip_packet_still_gets_valid_checksums() {
    let tpl = sample_ack();
    let fake = vec![0xffu8; 200_000];
    let out = build_fake_packet(&tpl, 7, &fake).unwrap();
    assert_eq!(out.len(), 40 + 200_000);
    assert_eq!(ip_checksum(&out[..20]), 0);
    assert_eq!(&out[40..], &fake[..]);
}
