//! The BSD packet filter's wire format and ioctl encoding, with no syscalls
//! in it: the record walk over a `read(2)` batch from a bpf device, the
//! Ethernet split, and the `_IOW`/`_IOR` command numbers.
//!
//! The `bpf_hdr` fields are read little-endian: they are host-order, and
//! every platform this backend runs on (Darwin on arm64 and x86_64) is
//! little-endian.
use vstd::prelude::*;
use vstd::string::StringSliceAdditionalSpecFns;

verus! {

/// Bytes of `struct bpf_hdr` actually parsed — through the end of
/// `bh_hdrlen`, excluding the tail padding that makes `sizeof` 20.
pub const BPF_HDR_FIELDS: usize = 18;

/// Offset of `bh_caplen` in Darwin's `struct bpf_hdr`.
pub const OFF_CAPLEN: usize = 8;

/// Offset of `bh_hdrlen` in Darwin's `struct bpf_hdr`.
pub const OFF_HDRLEN: usize = 16;

pub const ETH_HDR_LEN: usize = 14;

pub const ETH_P_IP: u16 = 0x0800;

/// `x` rounded up to a multiple of four.
pub open spec fn word_align(x: int) -> int {
    (x + 3) / 4 * 4
}

/// `BPF_WORDALIGN` from `<net/bpf.h>`: records in a read(2) batch start on a
/// 4-byte boundary.
pub fn bpf_word_align(x: usize) -> (r: usize)
    requires
        x <= usize::MAX - 3,
    ensures
        r == word_align(x as int),
        r % 4 == 0 && x <= r < x + 4,
{
    let y = x + 3;
    assert(y & !3usize == y / 4 * 4) by (bit_vector);
    y & !3usize
}

/// One captured frame inside a read(2) batch.
pub struct Record<'a> {
    /// The link-layer frame, `bh_caplen` bytes of it.
    pub frame: &'a [u8],
    /// Offset of the next record. May land past the end of the batch, which
    /// simply means the batch is drained.
    pub next: usize,
}

/// The little-endian value of four bytes of `b` at `at`.
pub open spec fn le32_at(b: Seq<u8>, at: int) -> int {
    b[at] as int + b[at + 1] as int * 256 + b[at + 2] as int * 65536 + b[at + 3] as int
        * 16777216
}

/// The little-endian value of two bytes of `b` at `at`.
pub open spec fn le16_at(b: Seq<u8>, at: int) -> int {
    b[at] as int + b[at + 1] as int * 256
}

/// The `bh_caplen` of the record header at `pos`.
pub open spec fn caplen_at(buf: Seq<u8>, pos: int) -> int {
    le32_at(buf, pos + OFF_CAPLEN)
}

/// The `bh_hdrlen` of the record header at `pos`.
pub open spec fn hdrlen_at(buf: Seq<u8>, pos: int) -> int {
    le16_at(buf, pos + OFF_HDRLEN)
}

/// A whole record starts at `pos`: its header fields fit, its announced
/// header length covers them, and its frame ends within the batch.
pub open spec fn record_at(buf: Seq<u8>, pos: int) -> bool {
    &&& pos + BPF_HDR_FIELDS <= buf.len()
    &&& hdrlen_at(buf, pos) >= BPF_HDR_FIELDS
    &&& pos + hdrlen_at(buf, pos) + caplen_at(buf, pos) <= buf.len()
}

/// Reads the record at `pos` in a batch returned by read(2) on a bpf device.
///
/// `buf` must be trimmed to the bytes read(2) actually returned. `None` means
/// the remainder is not a whole record (a truncated or malformed tail); the
/// caller should abandon the rest of the batch rather than retry, since there
/// is no way to resynchronise.
pub fn next_record(buf: &[u8], pos: usize) -> (r: Option<Record<'_>>)
    requires
        buf@.len() <= isize::MAX,
    ensures
        r is Some <==> record_at(buf@, pos as int),
        r matches Some(rec) ==> {
            let start = pos + hdrlen_at(buf@, pos as int);
            let end = start + caplen_at(buf@, pos as int);
            &&& rec.frame@ == buf@.subrange(start, end)
            &&& rec.next == word_align(end)
            &&& rec.next > pos
        },
{
    if pos > buf.len() || buf.len() - pos < BPF_HDR_FIELDS {
        return None;
    }
    let caplen = (buf[pos + OFF_CAPLEN] as usize) + (buf[pos + OFF_CAPLEN + 1] as usize) * 256
        + (buf[pos + OFF_CAPLEN + 2] as usize) * 65536 + (buf[pos + OFF_CAPLEN + 3] as usize)
        * 16777216;
    let hdrlen = (buf[pos + OFF_HDRLEN] as usize) + (buf[pos + OFF_HDRLEN + 1] as usize) * 256;
    if hdrlen < BPF_HDR_FIELDS {
        return None;
    }
    if buf.len() - pos < hdrlen {
        return None;
    }
    let start = pos + hdrlen;
    if buf.len() - start < caplen {
        return None;
    }
    let end = start + caplen;
    Some(Record { frame: &buf[start..end], next: bpf_word_align(end) })
}

/// Splits an Ethernet frame into the header to re-attach on transmit and the
/// IPv4 packet behind it. `None` for a runt or for any EtherType but IPv4 —
/// the caller reports that as "nothing this call", never as an error.
pub fn strip_ethernet(frame: &[u8]) -> (r: Option<([u8; ETH_HDR_LEN], &[u8])>)
    ensures
        r is Some <==> frame@.len() >= ETH_HDR_LEN && frame@[12] as int * 256 + frame@[13] as int
            == ETH_P_IP,
        r matches Some((l2, ip)) ==> l2@ == frame@.subrange(0, ETH_HDR_LEN as int) && ip@
            == frame@.subrange(ETH_HDR_LEN as int, frame@.len() as int),
{
    if frame.len() < ETH_HDR_LEN {
        return None;
    }
    if (frame[12] as u16) * 256 + frame[13] as u16 != ETH_P_IP {
        return None;
    }
    let l2 = [
        frame[0],
        frame[1],
        frame[2],
        frame[3],
        frame[4],
        frame[5],
        frame[6],
        frame[7],
        frame[8],
        frame[9],
        frame[10],
        frame[11],
        frame[12],
        frame[13],
    ];
    assert(l2@ =~= frame@.subrange(0, ETH_HDR_LEN as int));
    Some((l2, &frame[ETH_HDR_LEN..frame.len()]))
}

pub const IOC_OUT: u64 = 0x4000_0000;

pub const IOC_IN: u64 = 0x8000_0000;

pub const IOCPARM_MASK: u64 = 0x1fff;

/// The `'B'` ioctl group all `BIOC*` commands share.
pub const GROUP: u64 = 66;

/// An ioctl command number as `<sys/ioccom.h>` encodes it: direction bits,
/// the argument size in bits 16 to 28, the group, the number.
pub open spec fn spec_bpf_ioc(dir: u64, num: u64, size: usize) -> u64 {
    dir | (((size as u64) & IOCPARM_MASK) << 16u64) | (GROUP << 8u64) | num
}

/// Encodes a `BIOC*` command.
pub fn bpf_ioc(dir: u64, num: u64, size: usize) -> (r: u64)
    ensures
        r == spec_bpf_ioc(dir, num, size),
{
    dir | (((size as u64) & IOCPARM_MASK) << 16u64) | (GROUP << 8u64) | num
}

/// `_IOR('B', 102, u_int)` — the kernel's read buffer size.
pub const BIOCGBLEN: u64 = IOC_OUT | ((4u64 & IOCPARM_MASK) << 16u64) | (GROUP << 8u64) | 102u64;

/// `_IOWR('B', 102, u_int)` — must be set *before* `BIOCSETIF`.
pub const BIOCSBLEN: u64 = (IOC_IN | IOC_OUT) | ((4u64 & IOCPARM_MASK) << 16u64) | (GROUP
    << 8u64) | 102u64;

/// `_IOW('B', 108, struct ifreq)` — attaches the device to an interface.
pub const BIOCSETIF: u64 = IOC_IN | ((32u64 & IOCPARM_MASK) << 16u64) | (GROUP << 8u64) | 108u64;

/// `_IOW('B', 112, u_int)` — deliver each frame as it arrives.
pub const BIOCIMMEDIATE: u64 = IOC_IN | ((4u64 & IOCPARM_MASK) << 16u64) | (GROUP << 8u64)
    | 112u64;

/// `_IOW('B', 117, u_int)` — leave the source MAC of what is written alone.
pub const BIOCSHDRCMPLT: u64 = IOC_IN | ((4u64 & IOCPARM_MASK) << 16u64) | (GROUP << 8u64)
    | 117u64;

/// The name field of `struct ifreq` for `BIOCSETIF`: the interface name
/// followed by zeros, `None` when the name leaves no room for the NUL the
/// kernel expects.
pub fn ifreq_name(iface_name: &str) -> (r: Option<[u8; 16]>)
    ensures
        r is Some <==> iface_name.spec_bytes().len() < 16,
        r matches Some(n) ==> n@ == iface_name.spec_bytes() + Seq::new(
            (16 - iface_name.spec_bytes().len()) as nat,
            |i: int| 0u8,
        ),
{
    let b = iface_name.as_bytes();
    if b.len() >= 16 {
        return None;
    }
    let mut n = [0u8; 16];
    let mut i: usize = 0;
    while i < b.len()
        invariant
            i <= b@.len() < 16,
            forall|j: int| 0 <= j < i ==> n@[j] == b@[j],
            forall|j: int| i <= j < 16 ==> n@[j] == 0,
        decreases b@.len() - i,
    {
        n[i] = b[i];
        i = i + 1;
    }
    assert(n@ =~= b@ + Seq::new((16 - b@.len()) as nat, |i: int| 0u8));
    Some(n)
}

} // verus!
