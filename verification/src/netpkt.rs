//! IPv4/TCP header handling: parsing, RFC 1071 checksums, and the
//! out-of-window fake packet built from a captured third-handshake ACK.
//!
//! Everything here works on the **IP layer onward**, never on Ethernet
//! frames. Link-layer framing is the capture backend's business.
use crate::checksum::{
    be16, be16_bytes, lemma_fold_step, lemma_not_u16, lemma_ones_sum_congruent, lemma_ones_sum_props,
    lemma_ones_sum_of_multiple, lemma_word_sum_concat, lemma_word_sum_nonneg, lemma_word_sum_odd_tail,
    lemma_word_sum_prefix_le, lemma_word_sum_set_word,
    lemma_word_sum_take_step, lemma_word_sum_upper, ones_sum, word_sum,
};
use vstd::prelude::*;

verus! {

pub const FIN: u8 = 0x01;

pub const SYN: u8 = 0x02;

pub const RST: u8 = 0x04;

pub const PSH: u8 = 0x08;

pub const ACK: u8 = 0x10;

/// The fields of one IPv4/TCP packet that the sniffer reads.
pub struct TcpView {
    pub src_ip: [u8; 4],
    pub dst_ip: [u8; 4],
    pub src_port: u16,
    pub dst_port: u16,
    pub seq: u32,
    pub ack: u32,
    pub flags: u8,
    pub payload_len: usize,
}

/// The big-endian 32-bit value of four bytes.
pub open spec fn be32(a: u8, b: u8, c: u8, d: u8) -> int {
    a as int * 16777216 + b as int * 65536 + c as int * 256 + d as int
}

/// The bytes of a big-endian 32-bit value.
pub open spec fn be32_bytes(v: int) -> Seq<u8> {
    seq![
        (v / 16777216) as u8,
        ((v / 65536) % 256) as u8,
        ((v / 256) % 256) as u8,
        (v % 256) as u8,
    ]
}

/// The IP header length, in bytes, that the first byte of `ip` announces.
pub open spec fn ihl_of(ip: Seq<u8>) -> int {
    (ip[0] % 16) as int * 4
}

/// The TCP header length, in bytes, announced by the TCP header that starts
/// at `at`.
pub open spec fn data_off_at(ip: Seq<u8>, at: int) -> int {
    (ip[at + 12] / 16) as int * 4
}

/// `ip` holds a whole IPv4 header and a whole TCP header after it.
pub open spec fn is_ipv4_tcp(ip: Seq<u8>) -> bool {
    &&& ip.len() >= 20
    &&& ip[0] / 16 == 4
    &&& ip[9] == 6
    &&& ihl_of(ip) >= 20
    &&& ip.len() >= ihl_of(ip) + 20
    &&& data_off_at(ip, ihl_of(ip)) >= 20
    &&& ip.len() - ihl_of(ip) >= data_off_at(ip, ihl_of(ip))
}

/// The view of a packet for which [`is_ipv4_tcp`] holds.
pub open spec fn tcp_view_of(ip: Seq<u8>) -> TcpView {
    let h = ihl_of(ip);
    TcpView {
        src_ip: [ip[12], ip[13], ip[14], ip[15]],
        dst_ip: [ip[16], ip[17], ip[18], ip[19]],
        src_port: be16(ip[h], ip[h + 1]) as u16,
        dst_port: be16(ip[h + 2], ip[h + 3]) as u16,
        seq: be32(ip[h + 4], ip[h + 5], ip[h + 6], ip[h + 7]) as u32,
        ack: be32(ip[h + 8], ip[h + 9], ip[h + 10], ip[h + 11]) as u32,
        flags: ip[h + 13],
        payload_len: (ip.len() - h - data_off_at(ip, h)) as usize,
    }
}

/// The checksum RFC 1071 assigns to `b`: the complement of the folded sum.
pub open spec fn spec_checksum(total: int) -> int {
    65535 - ones_sum(total)
}

/// The IPv4 header checksum of `iph`.
pub open spec fn spec_ip_checksum(iph: Seq<u8>) -> int {
    spec_checksum(word_sum(iph))
}

/// The TCP pseudo-header: source and destination address, protocol 6 and
/// the segment length, truncated to 16 bits.
pub open spec fn pseudo_header(iph: Seq<u8>, seg_len: int) -> Seq<u8> {
    iph.subrange(12, 20) + seq![0u8, 6u8] + be16_bytes(seg_len % 65536)
}

/// The TCP checksum of segment `seg` sent with IP header `iph`.
pub open spec fn spec_tcp_checksum(iph: Seq<u8>, seg: Seq<u8>) -> int {
    spec_checksum(
        ones_sum(word_sum(pseudo_header(iph, seg.len() as int))) + ones_sum(word_sum(seg)),
    )
}

/// `b` with the big-endian 16-bit value `v` written at `k`.
pub open spec fn set16(b: Seq<u8>, k: int, v: int) -> Seq<u8> {
    b.update(k, be16_bytes(v)[0]).update(k + 1, be16_bytes(v)[1])
}

/// `b` with the big-endian 32-bit value `v` written at `k`.
pub open spec fn set32(b: Seq<u8>, k: int, v: int) -> Seq<u8> {
    b.update(k, be32_bytes(v)[0]).update(k + 1, be32_bytes(v)[1]).update(
        k + 2,
        be32_bytes(v)[2],
    ).update(k + 3, be32_bytes(v)[3])
}

/// The TCP header length of the packet `t`.
pub open spec fn tcp_hl_of(t: Seq<u8>) -> int {
    data_off_at(t, ihl_of(t))
}

/// A captured packet can serve as the template of a fake: a whole IP header
/// of at least 20 bytes, then a whole TCP header of at least 20 bytes.
pub open spec fn fake_template_ok(t: Seq<u8>) -> bool {
    &&& t.len() >= 1
    &&& ihl_of(t) >= 20
    &&& t.len() > ihl_of(t) + 12
    &&& tcp_hl_of(t) >= 20
    &&& t.len() >= ihl_of(t) + tcp_hl_of(t)
}

/// The sequence number of a fake of `len` bytes against ISN `isn`: one past
/// the ISN minus the fake's length, modulo 2^32, so that the fake ends
/// exactly where the real stream begins.
pub open spec fn fake_seq(isn: u32, len: int) -> int {
    (isn as int + 1 - len) % 4294967296
}

/// The IP layer of the fake packet built from template `t`: the template's
/// IP and TCP headers followed by `fake`, with the IP total length set, the
/// IP id incremented, PSH set, the sequence number moved before the
/// receive window, and both checksums recomputed.
/// The template's headers followed by the fake payload.
pub open spec fn fake_base(t: Seq<u8>, fake: Seq<u8>) -> Seq<u8> {
    t.take(ihl_of(t) + tcp_hl_of(t)) + fake
}

/// Step one: total length set, id incremented, IP checksum field zeroed.
pub open spec fn fake_ip1(t: Seq<u8>, fake: Seq<u8>) -> Seq<u8> {
    let base = fake_base(t, fake);
    set16(
        set16(set16(base, 2, base.len() as int % 65536), 4, (be16(base[4], base[5]) + 1) % 65536),
        10,
        0,
    )
}

/// Step two: the IP checksum filled in.
pub open spec fn fake_ip2(t: Seq<u8>, fake: Seq<u8>) -> Seq<u8> {
    let ip1 = fake_ip1(t, fake);
    set16(ip1, 10, spec_ip_checksum(ip1.take(ihl_of(t))))
}

/// Step three: PSH set, sequence number moved, TCP checksum field zeroed.
pub open spec fn fake_tcp1(t: Seq<u8>, isn: u32, fake: Seq<u8>) -> Seq<u8> {
    let ihl = ihl_of(t);
    let ip2 = fake_ip2(t, fake);
    set16(
        set32(ip2.update(ihl + 13, ip2[ihl + 13] | PSH), ihl + 4, fake_seq(isn, fake.len() as int)),
        ihl + 16,
        0,
    )
}

/// The IP layer of the fake packet built from template `t`: the template's
/// IP and TCP headers followed by `fake`, with the IP total length set, the
/// IP id incremented, PSH set, the sequence number moved before the
/// receive window, and both checksums recomputed.
pub open spec fn spec_fake_packet(t: Seq<u8>, isn: u32, fake: Seq<u8>) -> Seq<u8> {
    let ihl = ihl_of(t);
    let tcp1 = fake_tcp1(t, isn, fake);
    set16(tcp1, ihl + 16, spec_tcp_checksum(tcp1.take(ihl), tcp1.skip(ihl)))
}

fn read_be16(b: &[u8], i: usize) -> (r: u16)
    requires
        i + 2 <= b@.len(),
    ensures
        r == be16(b@[i as int], b@[i + 1]),
{
    (b[i] as u16) * 256 + b[i + 1] as u16
}

fn read_be32(b: &[u8], i: usize) -> (r: u32)
    requires
        i + 4 <= b@.len(),
    ensures
        r == be32(b@[i as int], b@[i + 1], b@[i + 2], b@[i + 3]),
{
    (b[i] as u32) * 16777216 + (b[i + 1] as u32) * 65536 + (b[i + 2] as u32) * 256
        + b[i + 3] as u32
}

fn write_be16(v: &mut Vec<u8>, i: usize, x: u16)
    requires
        i + 2 <= old(v)@.len(),
    ensures
        final(v)@ == set16(old(v)@, i as int, x as int),
        be16(be16_bytes(x as int)[0], be16_bytes(x as int)[1]) == x,
{
    let _len = v.len();
    v.set(i, (x / 256) as u8);
    v.set(i + 1, (x % 256) as u8);
}

fn write_be32(v: &mut Vec<u8>, i: usize, x: u32)
    requires
        i + 4 <= old(v)@.len(),
    ensures
        final(v)@ == set32(old(v)@, i as int, x as int),
{
    let _len = v.len();
    v.set(i, (x / 16777216) as u8);
    v.set(i + 1, ((x / 65536) % 256) as u8);
    v.set(i + 2, ((x / 256) % 256) as u8);
    v.set(i + 3, (x % 256) as u8);
}

fn ip_hdr_len(ip: &[u8]) -> (r: usize)
    requires
        ip@.len() >= 1,
    ensures
        r == ihl_of(ip@),
{
    let b = ip[0];
    assert(b & 0x0f == b % 16) by (bit_vector);
    (b & 0x0f) as usize * 4
}

/// Reads the addresses, ports, sequence numbers, flags and payload length of
/// an IPv4/TCP packet; `None` for anything else or anything truncated.
pub fn parse_ipv4_tcp(ip: &[u8]) -> (r: Option<TcpView>)
    ensures
        r is Some <==> is_ipv4_tcp(ip@),
        r matches Some(v) ==> v == tcp_view_of(ip@),
        r matches Some(v) ==> v.payload_len == ip@.len() - (ip@[0] % 16) as int * 4 - (ip@[(ip@[0]
            % 16) as int * 4 + 12] / 16) as int * 4,
{
    if ip.len() < 20 {
        return None;
    }
    let v0 = ip[0];
    assert(v0 >> 4 == v0 / 16) by (bit_vector);
    if v0 >> 4 != 4 || ip[9] != 6 {
        return None;
    }
    let ihl = ip_hdr_len(ip);
    if ihl < 20 || ip.len() < ihl + 20 {
        return None;
    }
    let off = ip[ihl + 12];
    assert(off >> 4 == off / 16) by (bit_vector);
    let data_off = (off >> 4) as usize * 4;
    if data_off < 20 || ip.len() - ihl < data_off {
        return None;
    }
    let v = TcpView {
        src_ip: [ip[12], ip[13], ip[14], ip[15]],
        dst_ip: [ip[16], ip[17], ip[18], ip[19]],
        src_port: read_be16(ip, ihl),
        dst_port: read_be16(ip, ihl + 2),
        seq: read_be32(ip, ihl + 4),
        ack: read_be32(ip, ihl + 8),
        flags: ip[ihl + 13],
        payload_len: ip.len() - ihl - data_off,
    };
    assert(v.src_ip@ =~= tcp_view_of(ip@).src_ip@);
    assert(v.dst_ip@ =~= tcp_view_of(ip@).dst_ip@);
    proof {
        lemma_tcp_view_reads_the_headers(ip@);
    }
    Some(v)
}

/// The parsing law, over the raw bytes: with `h` the IP header length the
/// low nibble of byte 0 announces (times four) and `d` the TCP header length
/// the high nibble of byte `h + 12` announces (times four), the addresses are
/// bytes 12..16 and 16..20, the ports, sequence and acknowledgment numbers
/// are the big-endian fields at `h`, `h + 2`, `h + 4` and `h + 8`, the flags
/// are byte `h + 13`, and the payload is everything after both headers:
/// TCP options count as header, never as payload.
pub proof fn lemma_tcp_view_reads_the_headers(ip: Seq<u8>)
    requires
        is_ipv4_tcp(ip),
        ip.len() <= usize::MAX,
    ensures
        ({
            let v = tcp_view_of(ip);
            let h = (ip[0] % 16) as int * 4;
            let d = (ip[h + 12] / 16) as int * 4;
            &&& v.src_ip@ == ip.subrange(12, 16)
            &&& v.dst_ip@ == ip.subrange(16, 20)
            &&& v.src_port == ip[h] as int * 256 + ip[h + 1] as int
            &&& v.dst_port == ip[h + 2] as int * 256 + ip[h + 3] as int
            &&& v.seq == ip[h + 4] as int * 16777216 + ip[h + 5] as int * 65536 + ip[h + 6] as int
                * 256 + ip[h + 7] as int
            &&& v.ack == ip[h + 8] as int * 16777216 + ip[h + 9] as int * 65536 + ip[h + 10] as int
                * 256 + ip[h + 11] as int
            &&& v.flags == ip[h + 13]
            &&& v.payload_len == ip.len() - h - d
        }),
{
    let v = tcp_view_of(ip);
    assert(v.src_ip@ =~= ip.subrange(12, 16));
    assert(v.dst_ip@ =~= ip.subrange(16, 20));
}

/// The acceptance law, over the raw bytes: a packet parses exactly when it
/// has at least 20 bytes, version 4 in the high nibble of byte 0, protocol 6
/// (TCP) in byte 9, an IP header length `h` (low nibble of byte 0, times
/// four) of at least 20 with a whole TCP header after it, and a TCP header
/// length `d` (high nibble of byte `h + 12`, times four) of at least 20 that
/// the packet holds whole.
pub proof fn lemma_ipv4_tcp_accepts_exactly(ip: Seq<u8>)
    ensures
        is_ipv4_tcp(ip) <==> {
            &&& ip.len() >= 20
            &&& ip[0] / 16 == 4
            &&& ip[9] == 6
            &&& (ip[0] % 16) as int * 4 >= 20
            &&& ip.len() >= (ip[0] % 16) as int * 4 + 20
            &&& (ip[(ip[0] % 16) as int * 4 + 12] / 16) as int * 4 >= 20
            &&& ip.len() >= (ip[0] % 16) as int * 4 + (ip[(ip[0] % 16) as int * 4 + 12] / 16) as int
                * 4
        },
{
}

/// A folded sum equals [`ones_sum`] of any sum congruent to it.
proof fn lemma_folded_value(s: int, total: int)
    requires
        0 <= s <= 65535,
        total >= 0,
        s % 65535 == total % 65535,
        s == 0 <==> total == 0,
    ensures
        s == ones_sum(total),
{
    if s > 0 {
        lemma_ones_sum_congruent(s, total);
    }
}

/// Folding once more changes nothing.
pub proof fn lemma_ones_sum_idempotent(x: int)
    requires
        x >= 0,
    ensures
        ones_sum(ones_sum(x)) == ones_sum(x),
{
    lemma_ones_sum_props(x);
    if x > 0 {
        lemma_ones_sum_congruent(ones_sum(x), x);
    }
}

/// End-around-carry folding of a 32-bit sum down to 16 bits.
fn fold_carries(s0: u32) -> (r: u32)
    ensures
        r == ones_sum(s0 as int),
{
    let mut s = s0;
    while s >> 16 != 0
        invariant
            s as int % 65535 == s0 as int % 65535,
            s == 0 <==> s0 == 0,
        decreases s,
    {
        proof {
            assert(s >> 16 != 0 ==> s >= 65536) by (bit_vector);
            lemma_fold_step(s);
        }
        s = (s & 0xffff) + (s >> 16);
    }
    assert(s >> 16 == 0 ==> s <= 65535) by (bit_vector);
    proof {
        lemma_folded_value(s as int, s0 as int);
    }
    s
}

/// The 16-bit one's-complement sum of `b`.
fn sum16(b: &[u8]) -> (r: u32)
    requires
        word_sum(b@) <= u32::MAX,
    ensures
        r == ones_sum(word_sum(b@)),
{
    let mut s: u32 = 0;
    let mut i: usize = 0;
    while b.len() - i >= 2
        invariant
            i <= b@.len(),
            i % 2 == 0,
            s == word_sum(b@.take(i as int)),
            word_sum(b@) <= u32::MAX,
        decreases b@.len() - i,
    {
        proof {
            lemma_word_sum_take_step(b@, i as int);
            lemma_word_sum_prefix_le(b@, i + 2);
        }
        s = s + (b[i] as u32) * 256 + b[i + 1] as u32;
        i = i + 2;
    }
    if b.len() % 2 == 1 {
        proof {
            lemma_word_sum_odd_tail(b@);
        }
        s = s + (b[b.len() - 1] as u32) * 256;
    } else {
        assert(b@.take(i as int) =~= b@);
    }
    fold_carries(s)
}

/// The complement of the folded sum.
fn fold(s: u32) -> (r: u16)
    ensures
        r == spec_checksum(s as int),
{
    let f = fold_carries(s);
    proof {
        lemma_ones_sum_props(s as int);
        lemma_not_u16(f as u16);
    }
    !(f as u16)
}

/// The IPv4 header checksum of `iph`, computed with its checksum field as
/// it stands (a sender zeroes it first).
pub fn ip_checksum(iph: &[u8]) -> (r: u16)
    requires
        word_sum(iph@) <= u32::MAX,
    ensures
        r == spec_ip_checksum(iph@),
{
    let s = sum16(iph);
    proof {
        lemma_word_sum_nonneg(iph@);
        lemma_ones_sum_idempotent(word_sum(iph@));
    }
    fold(s)
}

/// The TCP checksum of `tcp_and_payload` sent under IP header `iph`,
/// computed with the segment's checksum field as it stands.
pub fn tcp_checksum(iph: &[u8], tcp_and_payload: &[u8]) -> (r: u16)
    requires
        iph@.len() >= 20,
        word_sum(tcp_and_payload@) <= u32::MAX,
    ensures
        r == spec_tcp_checksum(iph@, tcp_and_payload@),
{
    let len = (tcp_and_payload.len() % 65536) as u16;
    let pseudo: Vec<u8> = vec![
        iph[12],
        iph[13],
        iph[14],
        iph[15],
        iph[16],
        iph[17],
        iph[18],
        iph[19],
        0u8,
        6u8,
        (len / 256) as u8,
        (len % 256) as u8,
    ];
    assert(pseudo@ =~= pseudo_header(iph@, tcp_and_payload@.len() as int));
    proof {
        lemma_word_sum_upper(pseudo@);
        lemma_word_sum_nonneg(pseudo@);
        lemma_word_sum_nonneg(tcp_and_payload@);
        lemma_ones_sum_props(word_sum(pseudo@));
        lemma_ones_sum_props(word_sum(tcp_and_payload@));
    }
    let a = sum16(pseudo.as_slice());
    let b = sum16(tcp_and_payload);
    fold(a + b)
}

/// The plain sum of the words of `b`, in an accumulator wide enough for any
/// buffer: at most `0xffff` per two bytes, and no slice has 2^64 bytes.
fn word_sum_wide(b: &[u8]) -> (r: u128)
    ensures
        r == word_sum(b@),
{
    let mut s: u128 = 0;
    let mut i: usize = 0;
    let n = b.len();
    while b.len() - i >= 2
        invariant
            n == b@.len(),
            i <= b@.len() <= usize::MAX,
            i % 2 == 0,
            s == word_sum(b@.take(i as int)),
            s <= i * 65535,
        decreases b@.len() - i,
    {
        proof {
            lemma_word_sum_take_step(b@, i as int);
        }
        s = s + (b[i] as u128) * 256 + b[i + 1] as u128;
        i = i + 2;
    }
    if b.len() % 2 == 1 {
        proof {
            lemma_word_sum_odd_tail(b@);
            assert(b@.take(b@.len() - 1) =~= b@.take(i as int));
        }
        s = s + (b[b.len() - 1] as u128) * 256;
    } else {
        assert(b@.take(i as int) =~= b@);
    }
    s
}

/// [`ones_sum`] of a wide sum, computed directly.
fn ones_sum_wide(x: u128) -> (r: u128)
    ensures
        r == ones_sum(x as int),
        r <= 65535,
{
    if x == 0 {
        0
    } else {
        (x - 1) % 65535 + 1
    }
}

/// The TCP checksum of a segment of any length, with an accumulator that
/// cannot overflow.
fn tcp_checksum_wide(iph: &[u8], seg: &[u8]) -> (r: u16)
    requires
        iph@.len() >= 20,
    ensures
        r == spec_tcp_checksum(iph@, seg@),
{
    let len = (seg.len() % 65536) as u16;
    let pseudo: Vec<u8> = vec![
        iph[12],
        iph[13],
        iph[14],
        iph[15],
        iph[16],
        iph[17],
        iph[18],
        iph[19],
        0u8,
        6u8,
        (len / 256) as u8,
        (len % 256) as u8,
    ];
    assert(pseudo@ =~= pseudo_header(iph@, seg@.len() as int));
    let a = ones_sum_wide(word_sum_wide(pseudo.as_slice()));
    let b = ones_sum_wide(word_sum_wide(seg));
    let total = ones_sum_wide(a + b);
    (65535 - total) as u16
}

/// Checksum law for an IP header: filling a zeroed 16-bit field at an even
/// offset with the checksum computed over the header makes the header
/// re-sum to zero, which is what a receiver checks.
pub proof fn lemma_ip_checksum_fill_verifies(h: Seq<u8>, k: int)
    requires
        0 <= k,
        k % 2 == 0,
        k + 2 <= h.len(),
        h[k] == 0,
        h[k + 1] == 0,
    ensures
        ({
            let b = be16_bytes(spec_ip_checksum(h));
            spec_ip_checksum(h.update(k, b[0]).update(k + 1, b[1])) == 0
        }),
{
    let w = word_sum(h);
    lemma_word_sum_nonneg(h);
    lemma_ones_sum_props(w);
    let c = spec_ip_checksum(h);
    let b = be16_bytes(c);
    assert(be16(b[0], b[1]) == c);
    lemma_word_sum_set_word(h, k, b[0], b[1]);
    let w2 = w + c;
    assert(w2 > 0);
    assert(w2 % 65535 == 0);
    lemma_ones_sum_of_multiple(w2);
}

/// Checksum law for a TCP segment: filling its zeroed checksum field (bytes
/// 16 and 17) with the checksum computed over it and its pseudo-header makes
/// the segment re-sum to zero.
#[verifier::spinoff_prover]
#[verifier::rlimit(50)]
pub proof fn lemma_tcp_checksum_fill_verifies(iph: Seq<u8>, seg: Seq<u8>)
    requires
        iph.len() >= 20,
        seg.len() >= 18,
        seg[16] == 0,
        seg[17] == 0,
    ensures
        ({
            let b = be16_bytes(spec_tcp_checksum(iph, seg));
            spec_tcp_checksum(iph, seg.update(16, b[0]).update(17, b[1])) == 0
        }),
{
    let p = pseudo_header(iph, seg.len() as int);
    lemma_word_sum_nonneg(p);
    lemma_word_sum_nonneg(seg);
    let a = ones_sum(word_sum(p));
    let bw = word_sum(seg);
    lemma_ones_sum_props(word_sum(p));
    lemma_ones_sum_props(bw);
    let y = a + ones_sum(bw);
    lemma_ones_sum_props(y);
    let c = spec_tcp_checksum(iph, seg);
    assert(c == 65535 - ones_sum(y));
    let b = be16_bytes(c);
    assert(be16(b[0], b[1]) == c);
    let seg2 = seg.update(16, b[0]).update(17, b[1]);
    lemma_word_sum_set_word(seg, 16, b[0], b[1]);
    let bw2 = word_sum(seg2);
    assert(bw2 == bw + c);
    lemma_ones_sum_props(bw2);
    assert(pseudo_header(iph, seg2.len() as int) == p);
    let x = a + ones_sum(bw2);
    assert(x % 65535 == 0);
    assert(x > 0);
    lemma_ones_sum_of_multiple(x);
}

/// Fills the IP header of a fake under construction: total length, id
/// plus one, and the header checksum.
fn set_ip_fields(out: &mut Vec<u8>, ihl: usize, Ghost(t): Ghost<Seq<u8>>, Ghost(fake): Ghost<Seq<u8>>)
    requires
        fake_template_ok(t),
        ihl == ihl_of(t),
        old(out)@ == fake_base(t, fake),
    ensures
        final(out)@ == fake_ip2(t, fake),
{
    let total = (out.len() % 65536) as u16;
    write_be16(out, 2, total);
    let id = read_be16(out.as_slice(), 4);
    write_be16(out, 4, ((id as u32 + 1) % 65536) as u16);
    write_be16(out, 10, 0);
    let ghost ip1 = out@;
    assert(ip1 == fake_ip1(t, fake));
    assert(out@.take(ihl as int) =~= out@.subrange(0, ihl as int));
    proof {
        lemma_word_sum_upper(ip1.take(ihl as int));
    }
    let ck = ip_checksum(&out.as_slice()[0..ihl]);
    write_be16(out, 10, ck);
    assert(out@ == fake_ip2(t, fake));
}

/// Fills the TCP header of a fake under construction: PSH, the sequence
/// number before the receive window, and the segment checksum.
#[verifier::spinoff_prover]
#[verifier::rlimit(100)]
fn set_tcp_fields(
    out: &mut Vec<u8>,
    ihl: usize,
    isn: u32,
    fake_len: usize,
    Ghost(t): Ghost<Seq<u8>>,
    Ghost(fake): Ghost<Seq<u8>>,
)
    requires
        fake_template_ok(t),
        ihl == ihl_of(t),
        fake_len == fake.len(),
        old(out)@ == fake_ip2(t, fake),
    ensures
        final(out)@ == spec_fake_packet(t, isn, fake),
{
    let flags = out[ihl + 13];
    out.set(ihl + 13, flags | PSH);
    let seq = ((isn as u64 + 1 + 4294967296 - (fake_len as u64 % 4294967296)) % 4294967296) as u32;
    write_be32(out, ihl + 4, seq);
    write_be16(out, ihl + 16, 0);
    let ghost tcp1 = out@;
    assert(tcp1 =~= fake_tcp1(t, isn, fake));
    assert(tcp1.skip(ihl as int) =~= tcp1.subrange(ihl as int, tcp1.len() as int));
    assert(tcp1.take(ihl as int) =~= tcp1.subrange(0, ihl as int));
    let ck = tcp_checksum_wide(&out.as_slice()[0..ihl], &out.as_slice()[ihl..out.len()]);
    write_be16(out, ihl + 16, ck);
    assert(out@ =~= spec_fake_packet(t, isn, fake));
}

/// Builds the injected packet from `template_ip` — the IP layer of the
/// outbound third-handshake ACK just captured, which already carries the
/// right addresses, ports and TCP options.
///
/// The sequence number is set to `isn + 1 - fake.len()`, i.e. deliberately
/// *before* the server's receive window: DPI parses the segment and
/// whitelists the flow, the server discards it as out of window. `None`
/// when the template is too malformed to build from.
#[verifier::rlimit(100)]
pub fn build_fake_packet(template_ip: &[u8], isn: u32, fake: &[u8]) -> (r: Option<Vec<u8>>)
    ensures
        r is Some <==> fake_template_ok(template_ip@),
        r matches Some(out) ==> out@ == spec_fake_packet(template_ip@, isn, fake@),
{
    if template_ip.len() == 0 {
        return None;
    }
    let ihl = ip_hdr_len(template_ip);
    if ihl < 20 || template_ip.len() <= ihl + 12 {
        return None;
    }
    let off = template_ip[ihl + 12];
    assert(off >> 4 == off / 16) by (bit_vector);
    let tcp_hl = (off >> 4) as usize * 4;
    if tcp_hl < 20 || template_ip.len() < ihl + tcp_hl {
        return None;
    }
    let n = ihl + tcp_hl;
    let ghost t = template_ip@;
    let mut out: Vec<u8> = Vec::new();
    out.extend_from_slice(&template_ip[0..n]);
    out.extend_from_slice(fake);
    assert(out@ =~= fake_base(t, fake@));
    set_ip_fields(&mut out, ihl, Ghost(t), Ghost(fake@));
    set_tcp_fields(&mut out, ihl, isn, fake.len(), Ghost(t), Ghost(fake@));
    Some(out)
}

/// The bytes of a 32-bit value read back as that value.
pub proof fn lemma_be32_roundtrip(v: int)
    requires
        0 <= v < 4294967296,
    ensures
        be32(be32_bytes(v)[0], be32_bytes(v)[1], be32_bytes(v)[2], be32_bytes(v)[3]) == v,
{
}

/// The fake packet law: built from a usable template, the fake is the
/// template's headers followed by exactly the fake payload; its total length
/// field matches its length, its IP id is the template's plus one, PSH is
/// set, its sequence number ends the payload exactly at `isn + 1` (so it
/// lies wholly before the server's receive window), its flags are the
/// template's plus PSH, and both its IP and TCP checksums verify.
pub proof fn lemma_fake_packet_is_well_formed(t: Seq<u8>, isn: u32, fake: Seq<u8>)
    requires
        fake_template_ok(t),
    ensures
        ({
            let out = spec_fake_packet(t, isn, fake);
            let ihl = ihl_of(t);
            let n = ihl + tcp_hl_of(t);
            &&& out.len() == n + fake.len()
            &&& out.skip(n) == fake
            &&& be16(out[2], out[3]) == out.len() % 65536
            &&& be16(out[4], out[5]) == (be16(t[4], t[5]) + 1) % 65536
            &&& be32(out[ihl + 4], out[ihl + 5], out[ihl + 6], out[ihl + 7]) == fake_seq(
                isn,
                fake.len() as int,
            )
            &&& out[ihl + 13] & PSH == PSH
            &&& out[ihl + 13] == t[ihl + 13] | PSH
            &&& spec_ip_checksum(out.take(ihl)) == 0
            &&& spec_tcp_checksum(out.take(ihl), out.skip(ihl)) == 0
        }),
{
    let ihl = ihl_of(t);
    let n = ihl + tcp_hl_of(t);
    let base = fake_base(t, fake);
    let ip1 = fake_ip1(t, fake);
    let ip2 = fake_ip2(t, fake);
    let tcp1 = fake_tcp1(t, isn, fake);
    let out = spec_fake_packet(t, isn, fake);
    assert(base.len() == n + fake.len());
    assert(out.len() == base.len());
    assert(out.skip(n) =~= fake);

    // IP header: filled from a zeroed field, untouched afterwards.
    let h1 = ip1.take(ihl);
    assert(h1[10] == 0 && h1[11] == 0);
    lemma_ip_checksum_fill_verifies(h1, 10);
    let c = spec_ip_checksum(h1);
    assert(out.take(ihl) =~= h1.update(10, be16_bytes(c)[0]).update(11, be16_bytes(c)[1]));

    // TCP segment: likewise, under the same pseudo-header.
    let seg = tcp1.skip(ihl);
    assert(seg[16] == 0 && seg[17] == 0);
    lemma_tcp_checksum_fill_verifies(tcp1.take(ihl), seg);
    let c2 = spec_tcp_checksum(tcp1.take(ihl), seg);
    assert(out.take(ihl) =~= tcp1.take(ihl));
    assert(out.skip(ihl) =~= seg.update(16, be16_bytes(c2)[0]).update(17, be16_bytes(c2)[1]));

    let seqv = fake_seq(isn, fake.len() as int);
    lemma_be32_roundtrip(seqv);
    let f = ip2[ihl + 13];
    assert((f | PSH) & PSH == PSH) by (bit_vector);
    lemma_fake_packet_keeps_the_template(t, isn, fake);
}

/// The fake keeps its template: its TCP flags byte is the template's with
/// PSH added, so every flag the captured segment carried (ACK above all)
/// stays set; and every other byte of the two headers is the template's,
/// except the fields the fake rewrites — total length (2, 3), id (4, 5),
/// IP checksum (10, 11), sequence number (`ihl + 4` .. `ihl + 8`) and TCP
/// checksum (`ihl + 16`, `ihl + 17`).
pub proof fn lemma_fake_packet_keeps_the_template(t: Seq<u8>, isn: u32, fake: Seq<u8>)
    requires
        fake_template_ok(t),
    ensures
        ({
            let out = spec_fake_packet(t, isn, fake);
            let ihl = (t[0] % 16) as int * 4;
            let n = ihl + (t[ihl + 12] / 16) as int * 4;
            &&& out[ihl + 13] == t[ihl + 13] | PSH
            &&& forall|i: int|
                0 <= i < n && i != 2 && i != 3 && i != 4 && i != 5 && i != 10 && i != 11 && !(ihl
                    + 4 <= i < ihl + 8) && i != ihl + 13 && i != ihl + 16 && i != ihl + 17
                    ==> #[trigger] out[i] == t[i]
        }),
{
    let ihl = ihl_of(t);
    let n = ihl + tcp_hl_of(t);
    let base = fake_base(t, fake);
    let ip1 = fake_ip1(t, fake);
    let ip2 = fake_ip2(t, fake);
    let tcp1 = fake_tcp1(t, isn, fake);
    let out = spec_fake_packet(t, isn, fake);
    assert(base.len() == n + fake.len());
    assert(forall|i: int| 0 <= i < n ==> #[trigger] base[i] == t[i]);
    assert(ip2[ihl + 13] == t[ihl + 13]);
    assert(tcp1[ihl + 13] == ip2[ihl + 13] | PSH);
    assert(out[ihl + 13] == tcp1[ihl + 13]);
    assert forall|i: int|
        0 <= i < n && i != 2 && i != 3 && i != 4 && i != 5 && i != 10 && i != 11 && !(ihl + 4
            <= i < ihl + 8) && i != ihl + 13 && i != ihl + 16 && i != ihl + 17 implies #[trigger] out[i]
        == t[i] by {
        assert(base[i] == t[i]);
        assert(ip1[i] == base[i]);
        assert(ip2[i] == ip1[i]);
        assert(tcp1[i] == ip2[i]);
    }
}

/// The fake's sequence number and checksums in the receiver's terms: the
/// sequence number plus the payload's length is `isn + 1` modulo 2^32, so
/// the payload ends exactly where the real stream begins; and the one's
/// complement sum of the IP header, and that of the pseudo-header and the
/// TCP segment, are both all ones, which is what RFC 1071 has a receiver
/// check.
pub proof fn lemma_fake_packet_ends_at_the_stream_and_checks(t: Seq<u8>, isn: u32, fake: Seq<u8>)
    requires
        fake_template_ok(t),
    ensures
        ({
            let out = spec_fake_packet(t, isn, fake);
            let ihl = (t[0] % 16) as int * 4;
            &&& (be32(out[ihl + 4], out[ihl + 5], out[ihl + 6], out[ihl + 7]) + fake.len())
                % 4294967296 == (isn as int + 1) % 4294967296
            &&& ones_sum(word_sum(out.take(ihl))) == 65535
            &&& ones_sum(
                ones_sum(word_sum(pseudo_header(out.take(ihl), out.len() - ihl))) + ones_sum(
                    word_sum(out.skip(ihl)),
                ),
            ) == 65535
        }),
{
    lemma_fake_packet_is_well_formed(t, isn, fake);
    let out = spec_fake_packet(t, isn, fake);
    let ihl = ihl_of(t);
    lemma_sequence_ends_at(isn, fake.len() as int);
    lemma_checksums_in_receiver_terms(out.take(ihl), out.skip(ihl));
}

/// A fake of `len` bytes at [`fake_seq`] ends at `isn + 1`, modulo 2^32.
proof fn lemma_sequence_ends_at(isn: u32, len: int)
    ensures
        (fake_seq(isn, len) + len) % 4294967296 == (isn as int + 1) % 4294967296,
{
    vstd::arithmetic::div_mod::lemma_add_mod_noop(isn as int + 1 - len, len, 4294967296);
    vstd::arithmetic::div_mod::lemma_mod_twice(isn as int + 1 - len, 4294967296);
}

/// Checksums that verify, as the one's complement sums a receiver computes.
proof fn lemma_checksums_in_receiver_terms(h: Seq<u8>, seg: Seq<u8>)
    requires
        spec_ip_checksum(h) == 0,
        spec_tcp_checksum(h, seg) == 0,
    ensures
        ones_sum(word_sum(h)) == 65535,
        ones_sum(ones_sum(word_sum(pseudo_header(h, seg.len() as int))) + ones_sum(word_sum(seg)))
            == 65535,
{
}

/// The TCP checksum is the Internet checksum of the RFC 793 pseudo-header
/// (source, destination, zero, protocol 6, TCP length) followed by the
/// segment; no other byte of the IP header affects it.
pub proof fn lemma_tcp_checksum_is_checksum_of_pseudo_header_and_segment(
    iph: Seq<u8>,
    seg: Seq<u8>,
)
    requires
        iph.len() >= 20,
    ensures
        spec_tcp_checksum(iph, seg) == spec_ip_checksum(pseudo_header(iph, seg.len() as int) + seg),
{
    let p = pseudo_header(iph, seg.len() as int);
    assert(p.len() == 12);
    lemma_word_sum_concat(p, seg);
    lemma_word_sum_nonneg(p);
    lemma_word_sum_nonneg(seg);
    let a = word_sum(p);
    let b = word_sum(seg);
    lemma_ones_sum_props(a);
    lemma_ones_sum_props(b);
    lemma_ones_sum_props(a + b);
    lemma_ones_sum_props(ones_sum(a) + ones_sum(b));
    if a + b > 0 {
        assert((ones_sum(a) + ones_sum(b)) % 65535 == (a + b) % 65535) by {
            vstd::arithmetic::div_mod::lemma_add_mod_noop(ones_sum(a), ones_sum(b), 65535);
            vstd::arithmetic::div_mod::lemma_add_mod_noop(a, b, 65535);
        }
        lemma_ones_sum_congruent(ones_sum(a) + ones_sum(b), a + b);
    }
}

} // verus!
