use snifake::bpf::{
    bpf_ioc, bpf_word_align, next_record, strip_ethernet, BIOCGBLEN, BIOCIMMEDIATE, BIOCSBLEN,
    BIOCSETIF, BIOCSHDRCMPLT, ETH_HDR_LEN, IOC_IN, IOC_OUT, OFF_CAPLEN, OFF_HDRLEN,
};

/// A `bpf_hdr` for `caplen` bytes of payload, header padded to `hdrlen`.
fn hdr(caplen: u32, hdrlen: u16) -> Vec<u8> {
    let mut h = vec![0u8; hdrlen as usize];
    h[OFF_CAPLEN..OFF_CAPLEN + 4].copy_from_slice(&caplen.to_le_bytes());
    h[12..16].copy_from_slice(&caplen.to_le_bytes());
    h[OFF_HDRLEN..OFF_HDRLEN + 2].copy_from_slice(&hdrlen.to_le_bytes());
    h
}

fn eth_frame(ethertype: u16, payload: &[u8]) -> Vec<u8> {
    let mut f = vec![0u8; ETH_HDR_LEN];
    f[12..14].copy_from_slice(&ethertype.to_be_bytes());
    f.extend_from_slice(payload);
    f
}

#[test]
fn bpf_word_align_rounds_up_to_four() {
    assert_eq!(bpf_word_align(0), 0);
    assert_eq!(bpf_word_align(1), 4);
    assert_eq!(bpf_word_align(4), 4);
    assert_eq!(bpf_word_align(5), 8);
    assert_eq!(bpf_word_align(18), 20);
}

#[test]
fn ioctl_encoding_matches_libcs_published_darwin_constants() {
    assert_eq!(bpf_ioc(IOC_IN, 119, 4), 0x8004_4277);
    assert_eq!(bpf_ioc(IOC_IN, 103, 16), 0x8010_4267);
    assert_eq!(bpf_ioc(IOC_OUT, 110, 16), 0x4010_426e);
}

#[test]
fn bioc_constants_have_the_expected_values() {
    assert_eq!(BIOCGBLEN, 0x4004_4266);
    assert_eq!(BIOCSBLEN, 0xc004_4266);
    assert_eq!(BIOCSETIF, 0x8020_426c);
    assert_eq!(BIOCIMMEDIATE, 0x8004_4270);
    assert_eq!(BIOCSHDRCMPLT, 0x8004_4275);
}

#[test]
fn next_record_walks_a_batch_of_two_padded_records() {
    let mut buf = hdr(3, 20);
    buf.extend_from_slice(&[0xaa, 0xbb, 0xcc]);
    buf.push(0);
    buf.extend(hdr(2, 20));
    buf.extend_from_slice(&[0x11, 0x22]);

    let first = next_record(&buf, 0).expect("first record");
    assert_eq!(first.frame, [0xaa, 0xbb, 0xcc]);
    assert_eq!(first.next, 24);

    let second = next_record(&buf, first.next).expect("second record");
    assert_eq!(second.frame, [0x11, 0x22]);
    assert!(second.next >= buf.len(), "batch should now be drained");
}

#[test]
fn next_record_rejects_a_truncated_tail() {
    let mut buf = hdr(8, 20);
    buf.extend_from_slice(&[0x11, 0x22]);
    assert!(next_record(&buf, 0).is_none());

    assert!(next_record(&hdr(0, 20)[..10], 0).is_none());

    assert!(next_record(&hdr(0, 20), 0).is_some());
    let mut bad = hdr(0, 20);
    bad[OFF_HDRLEN..OFF_HDRLEN + 2].copy_from_slice(&4u16.to_le_bytes());
    assert!(next_record(&bad, 0).is_none());
}

#[test]
fn next_record_accepts_the_unpadded_18_byte_header() {
    let mut buf = hdr(1, 18);
    buf.push(0x42);
    let rec = next_record(&buf, 0).expect("record");
    assert_eq!(rec.frame, [0x42]);
    assert_eq!(rec.next, 20);
}

#[test]
fn strip_ethernet_keeps_ipv4_and_drops_everything_else() {
    let frame = eth_frame(0x0800, &[0x45, 0x00, 0x00, 0x14]);
    let (l2, ip) = strip_ethernet(&frame).expect("ipv4");
    assert_eq!(l2, frame[..ETH_HDR_LEN]);
    assert_eq!(ip, [0x45, 0x00, 0x00, 0x14]);

    assert!(strip_ethernet(&eth_frame(0x86dd, &[0x60])).is_none(), "ipv6");
    assert!(strip_ethernet(&eth_frame(0x0806, &[0x00])).is_none(), "arp");
    assert!(strip_ethernet(&[0u8; 13]).is_none(), "runt");
    assert_eq!(strip_ethernet(&eth_frame(0x0800, &[])).unwrap().1, b"");
}

#[test]
fn a_record_past_the_end_of_the_batch_is_none() {
    let buf = hdr(0, 20);
    assert!(next_record(&buf, buf.len()).is_none());
    assert!(next_record(&buf, buf.len() + 100).is_none());
}
