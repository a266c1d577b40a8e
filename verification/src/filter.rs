//! The classic-BPF program that keeps the sniff loop off the data path.
//!
//! Without a kernel filter a packet socket copies **every** frame on the
//! interface into user space — including every packet of the very download
//! being relayed — only for `classify` to ignore it. The program below
//! answers the same question in the kernel, so the sniff thread wakes for
//! little beyond the handshake packets of our own connections.
//!
//! It is deliberately a *superset* of what `classify` accepts: the filter is
//! an optimisation and never the authority on what gets acted upon. It keeps
//! everything TCP that shares an address **and** a port with the upstream, in
//! either direction; `classify` still applies the exact test.
//!
//! [`bpf_eval`] states what the kernel does with the opcodes the program
//! uses, and [`lemma_upstream_only_verdict`] proves which frames it keeps.
use vstd::prelude::*;

verus! {

/// One classic-BPF instruction, laid out like Linux's `struct sock_filter`
/// and BSD's `struct bpf_insn`.
#[derive(Clone, Copy, Debug, PartialEq, Eq, Structural)]
pub struct Insn {
    pub code: u16,
    pub jt: u8,
    pub jf: u8,
    pub k: u32,
}

/// A = u32 at [k]
pub const LD_W_ABS: u16 = 0x20;

/// A = u16 at [k]
pub const LD_H_ABS: u16 = 0x28;

/// A = u8 at [k]
pub const LD_B_ABS: u16 = 0x30;

/// A = u16 at [X + k]
pub const LD_H_IND: u16 = 0x48;

/// X = 4 * (u8 at [k] & 0x0f)
pub const LDX_B_MSH: u16 = 0xb1;

pub const JEQ_K: u16 = 0x15;

pub const JSET_K: u16 = 0x45;

pub const RET_K: u16 = 0x06;

/// Ethernet frame offsets: the filter always runs over a link-layer frame.
pub const ETHERTYPE: u32 = 12;

pub const IP_START: u32 = 14;

pub const IP_FLAGS_FRAG: u32 = 20;

pub const IP_PROTO: u32 = 23;

pub const IP_SRC: u32 = 26;

pub const IP_DST: u32 = 30;

pub const ETH_P_IP: u32 = 0x0800;

pub const IPPROTO_TCP: u32 = 6;

/// The fragment-offset field. A non-zero offset means the "ports" at the far
/// end of the IP header are payload bytes, not ports.
pub const FRAG_OFFSET_MASK: u32 = 0x1fff;

/// `ret` value that accepts the whole frame.
pub const ACCEPT: u32 = 0xffff_ffff;

pub const DROP: u32 = 0;

/// Number of instructions in the program.
pub const PROGRAM_LEN: usize = 17;

pub const ACCEPT_AT: usize = 15;

pub const DROP_AT: usize = 16;

/// Builds one instruction.
pub fn insn(code: u16, jt: u8, jf: u8, k: u32) -> (i: Insn)
    ensures
        i == (Insn { code, jt, jf, k }),
{
    Insn { code, jt, jf, k }
}

/// Relative jump from `at` to `target`, as classic BPF counts it: the number
/// of instructions to skip *after* the jump.
pub fn jump(at: usize, target: usize) -> (r: u8)
    requires
        at < target,
        target - at - 1 < 256,
    ensures
        r == target - at - 1,
{
    (target - at - 1) as u8
}

/// The big-endian value of `width` bytes of `f` at `at`, or `None` when the
/// frame is too short — where the kernel's load fails and the filter drops.
pub open spec fn field(f: Seq<u8>, at: int, width: int) -> Option<int>
    decreases width,
{
    if at < 0 || width < 0 || at + width > f.len() {
        None
    } else if width == 0 {
        Some(0)
    } else {
        match field(f, at, width - 1) {
            Some(v) => Some(v * 256 + f[at + width - 1] as int),
            None => None,
        }
    }
}

/// Classic BPF over the opcodes the program uses, from instruction `pc` with
/// accumulator `a` and index register `x`, for at most `fuel` instructions.
/// A load past the end of the frame drops it, as the kernel's does; running
/// off the program, an unknown opcode or running out of fuel is `None`.
pub open spec fn bpf_eval(prog: Seq<Insn>, f: Seq<u8>, pc: int, a: u32, x: u32, fuel: nat) -> Option<
    u32,
>
    decreases fuel,
{
    if fuel == 0 || pc < 0 || pc >= prog.len() {
        None
    } else {
        let i = prog[pc];
        let rest = (fuel - 1) as nat;
        if i.code == LD_W_ABS || i.code == LD_H_ABS || i.code == LD_B_ABS {
            let width = if i.code == LD_W_ABS {
                4
            } else if i.code == LD_H_ABS {
                2
            } else {
                1
            };
            match field(f, i.k as int, width) {
                Some(v) => bpf_eval(prog, f, pc + 1, v as u32, x, rest),
                None => Some(0u32),
            }
        } else if i.code == LD_H_IND {
            match field(f, x as int + i.k as int, 2) {
                Some(v) => bpf_eval(prog, f, pc + 1, v as u32, x, rest),
                None => Some(0u32),
            }
        } else if i.code == LDX_B_MSH {
            match field(f, i.k as int, 1) {
                Some(v) => bpf_eval(prog, f, pc + 1, a, (4 * (v % 16)) as u32, rest),
                None => Some(0u32),
            }
        } else if i.code == JEQ_K {
            let off = if a == i.k {
                i.jt
            } else {
                i.jf
            };
            bpf_eval(prog, f, pc + 1 + off, a, x, rest)
        } else if i.code == JSET_K {
            let off = if a & i.k != 0 {
                i.jt
            } else {
                i.jf
            };
            bpf_eval(prog, f, pc + 1 + off, a, x, rest)
        } else if i.code == RET_K {
            Some(i.k)
        } else {
            None
        }
    }
}

/// The big-endian 32-bit value of an address.
pub open spec fn ip_value(ip: [u8; 4]) -> int {
    ((ip[0] as int * 256 + ip[1] as int) * 256 + ip[2] as int) * 256 + ip[3] as int
}

/// The frames the program keeps: an Ethernet frame carrying IPv4, TCP, a
/// first (or only) fragment, with `connect_ip` as its source or destination
/// address and `connect_port` as its source or destination port — the ports
/// read after the IP header length the header itself announces. A frame too
/// short to hold a field the decision needs is dropped.
pub open spec fn upstream_frame(f: Seq<u8>, connect_ip: [u8; 4], connect_port: u16) -> bool {
    let x = match field(f, 14, 1) {
        Some(b) => 4 * (b % 16),
        None => 0,
    };
    &&& field(f, 12, 2) == Some(0x0800int)
    &&& field(f, 23, 1) == Some(6int)
    &&& field(f, 20, 2) matches Some(frag) && frag % 8192 == 0
    &&& field(f, 26, 4) == Some(ip_value(connect_ip)) || field(f, 30, 4) == Some(
        ip_value(connect_ip),
    )
    &&& field(f, 14 + x, 2) == Some(connect_port as int) || field(f, 16 + x, 2) == Some(
        connect_port as int,
    )
}

/// Instruction `pc` of the program.
pub open spec fn program_insn(connect_ip: [u8; 4], connect_port: u16, pc: int) -> Insn {
    let ip = ip_value(connect_ip) as u32;
    let port = connect_port as u32;
    if pc == 0 {
        Insn { code: LD_H_ABS, jt: 0, jf: 0, k: ETHERTYPE }
    } else if pc == 1 {
        Insn { code: JEQ_K, jt: 0, jf: 14, k: ETH_P_IP }
    } else if pc == 2 {
        Insn { code: LD_B_ABS, jt: 0, jf: 0, k: IP_PROTO }
    } else if pc == 3 {
        Insn { code: JEQ_K, jt: 0, jf: 12, k: IPPROTO_TCP }
    } else if pc == 4 {
        Insn { code: LD_H_ABS, jt: 0, jf: 0, k: IP_FLAGS_FRAG }
    } else if pc == 5 {
        Insn { code: JSET_K, jt: 10, jf: 0, k: FRAG_OFFSET_MASK }
    } else if pc == 6 {
        Insn { code: LD_W_ABS, jt: 0, jf: 0, k: IP_SRC }
    } else if pc == 7 {
        Insn { code: JEQ_K, jt: 2, jf: 0, k: ip }
    } else if pc == 8 {
        Insn { code: LD_W_ABS, jt: 0, jf: 0, k: IP_DST }
    } else if pc == 9 {
        Insn { code: JEQ_K, jt: 0, jf: 6, k: ip }
    } else if pc == 10 {
        Insn { code: LDX_B_MSH, jt: 0, jf: 0, k: IP_START }
    } else if pc == 11 {
        Insn { code: LD_H_IND, jt: 0, jf: 0, k: IP_START }
    } else if pc == 12 {
        Insn { code: JEQ_K, jt: 2, jf: 0, k: port }
    } else if pc == 13 {
        Insn { code: LD_H_IND, jt: 0, jf: 0, k: (IP_START + 2) as u32 }
    } else if pc == 14 {
        Insn { code: JEQ_K, jt: 0, jf: 1, k: port }
    } else if pc == 15 {
        Insn { code: RET_K, jt: 0, jf: 0, k: ACCEPT }
    } else {
        Insn { code: RET_K, jt: 0, jf: 0, k: DROP }
    }
}

/// The program, as instructions.
pub open spec fn spec_upstream_only(connect_ip: [u8; 4], connect_port: u16) -> Seq<Insn> {
    Seq::new(PROGRAM_LEN as nat, |pc: int| program_insn(connect_ip, connect_port, pc))
}

/// Builds the program: IPv4 TCP, unfragmented, to or from
/// `connect_ip`:`connect_port`.
pub fn upstream_only(connect_ip: [u8; 4], connect_port: u16) -> (r: [Insn; PROGRAM_LEN])
    ensures
        r@ == spec_upstream_only(connect_ip, connect_port),
        r@[ACCEPT_AT as int] == insn_spec(RET_K, 0, 0, ACCEPT),
        r@[DROP_AT as int] == insn_spec(RET_K, 0, 0, DROP),
        forall|at: int|
            0 <= at < PROGRAM_LEN && r@[at].code != RET_K ==> at + 1 + r@[at].jt <= DROP_AT && at
                + 1 + r@[at].jf <= DROP_AT,
{
    let ip = ((connect_ip[0] as u32 * 256 + connect_ip[1] as u32) * 256 + connect_ip[2] as u32)
        * 256 + connect_ip[3] as u32;
    let port = connect_port as u32;
    let r = [
        // 0..2  IPv4 over Ethernet?
        insn(LD_H_ABS, 0, 0, ETHERTYPE),
        insn(JEQ_K, 0, jump(1, DROP_AT), ETH_P_IP),
        // 2..4  TCP?
        insn(LD_B_ABS, 0, 0, IP_PROTO),
        insn(JEQ_K, 0, jump(3, DROP_AT), IPPROTO_TCP),
        // 4..6  first fragment only.
        insn(LD_H_ABS, 0, 0, IP_FLAGS_FRAG),
        insn(JSET_K, jump(5, DROP_AT), 0, FRAG_OFFSET_MASK),
        // 6..10  either endpoint is the upstream address.
        insn(LD_W_ABS, 0, 0, IP_SRC),
        insn(JEQ_K, jump(7, 10), 0, ip),
        insn(LD_W_ABS, 0, 0, IP_DST),
        insn(JEQ_K, 0, jump(9, DROP_AT), ip),
        // 10..15  either endpoint is the upstream port. X becomes the IP
        // header length, so options are handled without assuming 20 bytes.
        insn(LDX_B_MSH, 0, 0, IP_START),
        insn(LD_H_IND, 0, 0, IP_START),
        insn(JEQ_K, jump(12, ACCEPT_AT), 0, port),
        insn(LD_H_IND, 0, 0, IP_START + 2),
        insn(JEQ_K, jump(14, ACCEPT_AT), jump(14, DROP_AT), port),
        // 15, 16
        insn(RET_K, 0, 0, ACCEPT),
        insn(RET_K, 0, 0, DROP),
    ];
    assert(r@ =~= spec_upstream_only(connect_ip, connect_port));
    r
}

/// An instruction, as a value.
pub open spec fn insn_spec(code: u16, jt: u8, jf: u8, k: u32) -> Insn {
    Insn { code, jt, jf, k }
}

/// `256` to the power `w`.
pub open spec fn pow256(w: int) -> int
    decreases w,
{
    if w <= 0 {
        1
    } else {
        256 * pow256(w - 1)
    }
}

/// A field fits its width.
pub proof fn lemma_field_bound(f: Seq<u8>, at: int, width: int)
    requires
        0 <= width,
    ensures
        field(f, at, width) matches Some(v) ==> 0 <= v < pow256(width),
    decreases width,
{
    if width > 0 {
        lemma_field_bound(f, at, width - 1);
    }
}

/// The port half of [`upstream_frame`].
pub open spec fn port_ok(f: Seq<u8>, connect_port: u16) -> bool {
    let x = match field(f, 14, 1) {
        Some(b) => 4 * (b % 16),
        None => 0,
    };
    field(f, 14 + x, 2) == Some(connect_port as int) || field(f, 16 + x, 2) == Some(
        connect_port as int,
    )
}

/// Instructions 10 to 16: the port comparisons and the two returns.
proof fn lemma_port_part(connect_ip: [u8; 4], connect_port: u16, f: Seq<u8>, a: u32, x: u32, fuel: nat)
    requires
        fuel >= 6,
    ensures
        bpf_eval(spec_upstream_only(connect_ip, connect_port), f, 10, a, x, fuel) == Some(
            if port_ok(f, connect_port) {
                ACCEPT
            } else {
                DROP
            },
        ),
{
    let p = spec_upstream_only(connect_ip, connect_port);
    let port = connect_port as int;
    assert(p.len() == 17);
    assert(p[10] == program_insn(connect_ip, connect_port, 10));
    lemma_field_bound(f, 14, 1);
    match field(f, 14, 1) {
        None => {
            assert(field(f, 14, 2) is None && field(f, 16, 2) is None) by {
                reveal_with_fuel(field, 3);
            }
            assert(bpf_eval(p, f, 10, a, x, fuel) == Some(0u32));
        },
        Some(b) => {
            let xx = (4 * (b % 16)) as u32;
            assert(xx as int == 4 * (b % 16));
            let f1 = (fuel - 1) as nat;
            assert(bpf_eval(p, f, 10, a, x, fuel) == bpf_eval(p, f, 11, a, xx, f1));
            assert(p[11] == program_insn(connect_ip, connect_port, 11));
            lemma_field_bound(f, xx + 14, 2);
            lemma_field_bound(f, xx + 16, 2);
            assert(pow256(2) == 65536) by {
                reveal_with_fuel(pow256, 3);
            }
            match field(f, xx + 14, 2) {
                None => {
                    assert(field(f, xx + 16, 2) is None) by {
                        reveal_with_fuel(field, 3);
                    }
                    assert(bpf_eval(p, f, 11, a, xx, f1) == Some(0u32));
                },
                Some(sp) => {
                    let f2 = (fuel - 2) as nat;
                    let f3 = (fuel - 3) as nat;
                    assert(bpf_eval(p, f, 11, a, xx, f1) == bpf_eval(p, f, 12, sp as u32, xx, f2));
                    assert(p[12] == program_insn(connect_ip, connect_port, 12));
                    assert(p[15] == program_insn(connect_ip, connect_port, 15));
                    assert(p[16] == program_insn(connect_ip, connect_port, 16));
                    if sp == port {
                        assert(bpf_eval(p, f, 12, sp as u32, xx, f2) == bpf_eval(
                            p,
                            f,
                            15,
                            sp as u32,
                            xx,
                            f3,
                        ));
                    } else {
                        assert(bpf_eval(p, f, 12, sp as u32, xx, f2) == bpf_eval(
                            p,
                            f,
                            13,
                            sp as u32,
                            xx,
                            f3,
                        ));
                        assert(p[13] == program_insn(connect_ip, connect_port, 13));
                        let f4 = (fuel - 4) as nat;
                        let f5 = (fuel - 5) as nat;
                        match field(f, xx + 16, 2) {
                            None => {
                                assert(bpf_eval(p, f, 13, sp as u32, xx, f3) == Some(0u32));
                            },
                            Some(dp) => {
                                assert(bpf_eval(p, f, 13, sp as u32, xx, f3) == bpf_eval(
                                    p,
                                    f,
                                    14,
                                    dp as u32,
                                    xx,
                                    f4,
                                ));
                                assert(p[14] == program_insn(connect_ip, connect_port, 14));
                                if dp == port {
                                    assert(bpf_eval(p, f, 14, dp as u32, xx, f4) == bpf_eval(
                                        p,
                                        f,
                                        15,
                                        dp as u32,
                                        xx,
                                        f5,
                                    ));
                                } else {
                                    assert(bpf_eval(p, f, 14, dp as u32, xx, f4) == bpf_eval(
                                        p,
                                        f,
                                        16,
                                        dp as u32,
                                        xx,
                                        f5,
                                    ));
                                }
                            },
                        }
                    }
                },
            }
        },
    }
}

/// Instructions 6 to 16: the address comparisons onward.
proof fn lemma_addr_part(connect_ip: [u8; 4], connect_port: u16, f: Seq<u8>, a: u32, x: u32, fuel: nat)
    requires
        fuel >= 10,
    ensures
        bpf_eval(spec_upstream_only(connect_ip, connect_port), f, 6, a, x, fuel) == Some(
            if (field(f, 26, 4) == Some(ip_value(connect_ip)) || field(f, 30, 4) == Some(
                ip_value(connect_ip),
            )) && port_ok(f, connect_port) {
                ACCEPT
            } else {
                DROP
            },
        ),
{
    let p = spec_upstream_only(connect_ip, connect_port);
    let ipv = ip_value(connect_ip);
    assert(p.len() == 17);
    assert(p[6] == program_insn(connect_ip, connect_port, 6));
    assert(p[7] == program_insn(connect_ip, connect_port, 7));
    assert(p[16] == program_insn(connect_ip, connect_port, 16));
    lemma_field_bound(f, 26, 4);
    lemma_field_bound(f, 30, 4);
    assert(pow256(4) == 4294967296) by {
        reveal_with_fuel(pow256, 5);
    }
    assert(0 <= ipv < 4294967296);
    let f1 = (fuel - 1) as nat;
    let f2 = (fuel - 2) as nat;
    match field(f, 26, 4) {
        None => {
            assert(field(f, 30, 4) is None) by {
                reveal_with_fuel(field, 5);
            }
            assert(bpf_eval(p, f, 6, a, x, fuel) == Some(0u32));
        },
        Some(sv) => {
            assert(bpf_eval(p, f, 6, a, x, fuel) == bpf_eval(p, f, 7, sv as u32, x, f1));
            if sv == ipv {
                assert(bpf_eval(p, f, 7, sv as u32, x, f1) == bpf_eval(p, f, 10, sv as u32, x, f2));
                lemma_port_part(connect_ip, connect_port, f, sv as u32, x, f2);
            } else {
                assert(bpf_eval(p, f, 7, sv as u32, x, f1) == bpf_eval(p, f, 8, sv as u32, x, f2));
                assert(p[8] == program_insn(connect_ip, connect_port, 8));
                assert(p[9] == program_insn(connect_ip, connect_port, 9));
                let f3 = (fuel - 3) as nat;
                let f4 = (fuel - 4) as nat;
                match field(f, 30, 4) {
                    None => {
                        assert(bpf_eval(p, f, 8, sv as u32, x, f2) == Some(0u32));
                    },
                    Some(dv) => {
                        assert(bpf_eval(p, f, 8, sv as u32, x, f2) == bpf_eval(
                            p,
                            f,
                            9,
                            dv as u32,
                            x,
                            f3,
                        ));
                        if dv == ipv {
                            assert(bpf_eval(p, f, 9, dv as u32, x, f3) == bpf_eval(
                                p,
                                f,
                                10,
                                dv as u32,
                                x,
                                f4,
                            ));
                            lemma_port_part(connect_ip, connect_port, f, dv as u32, x, f4);
                        } else {
                            assert(bpf_eval(p, f, 9, dv as u32, x, f3) == bpf_eval(
                                p,
                                f,
                                16,
                                dv as u32,
                                x,
                                f4,
                            ));
                        }
                    },
                }
            }
        },
    }
}

/// The filter law: run by the kernel over a frame, the program keeps exactly
/// the frames of [`upstream_frame`] and drops every other, short frames
/// included — it never runs off its end or past its instruction count.
pub proof fn lemma_upstream_only_verdict(connect_ip: [u8; 4], connect_port: u16, f: Seq<u8>)
    ensures
        bpf_eval(spec_upstream_only(connect_ip, connect_port), f, 0, 0, 0, PROGRAM_LEN as nat)
            == Some(
            if upstream_frame(f, connect_ip, connect_port) {
                ACCEPT
            } else {
                DROP
            },
        ),
{
    let p = spec_upstream_only(connect_ip, connect_port);
    assert(p.len() == 17);
    assert(p[0] == program_insn(connect_ip, connect_port, 0));
    assert(p[1] == program_insn(connect_ip, connect_port, 1));
    assert(p[2] == program_insn(connect_ip, connect_port, 2));
    assert(p[3] == program_insn(connect_ip, connect_port, 3));
    assert(p[4] == program_insn(connect_ip, connect_port, 4));
    assert(p[5] == program_insn(connect_ip, connect_port, 5));
    assert(p[16] == program_insn(connect_ip, connect_port, 16));
    lemma_field_bound(f, 12, 2);
    lemma_field_bound(f, 23, 1);
    lemma_field_bound(f, 20, 2);
    assert(pow256(2) == 65536 && pow256(1) == 256) by {
        reveal_with_fuel(pow256, 3);
    }
    match field(f, 12, 2) {
        None => {
            assert(bpf_eval(p, f, 0, 0, 0, 17) == Some(0u32));
        },
        Some(et) => {
            assert(bpf_eval(p, f, 0, 0, 0, 17) == bpf_eval(p, f, 1, et as u32, 0, 16));
            if et != 0x0800 {
                assert(bpf_eval(p, f, 1, et as u32, 0, 16) == bpf_eval(p, f, 16, et as u32, 0, 15));
            } else {
                assert(bpf_eval(p, f, 1, et as u32, 0, 16) == bpf_eval(p, f, 2, et as u32, 0, 15));
                match field(f, 23, 1) {
                    None => {
                        assert(bpf_eval(p, f, 2, et as u32, 0, 15) == Some(0u32));
                    },
                    Some(pr) => {
                        assert(bpf_eval(p, f, 2, et as u32, 0, 15) == bpf_eval(
                            p,
                            f,
                            3,
                            pr as u32,
                            0,
                            14,
                        ));
                        if pr != 6 {
                            assert(bpf_eval(p, f, 3, pr as u32, 0, 14) == bpf_eval(
                                p,
                                f,
                                16,
                                pr as u32,
                                0,
                                13,
                            ));
                        } else {
                            assert(bpf_eval(p, f, 3, pr as u32, 0, 14) == bpf_eval(
                                p,
                                f,
                                4,
                                pr as u32,
                                0,
                                13,
                            ));
                            assert(field(f, 20, 2) is Some) by {
                                reveal_with_fuel(field, 3);
                            }
                            let frag = field(f, 20, 2)->0;
                            let fa = frag as u32;
                            assert(fa < 65536 ==> (fa & 0x1fff != 0 <==> fa % 8192 != 0))
                                by (bit_vector);
                            assert(bpf_eval(p, f, 4, pr as u32, 0, 13) == bpf_eval(
                                p,
                                f,
                                5,
                                fa,
                                0,
                                12,
                            ));
                            if fa & 0x1fff != 0 {
                                assert(bpf_eval(p, f, 5, fa, 0, 12) == bpf_eval(p, f, 16, fa, 0, 11));
                            } else {
                                assert(bpf_eval(p, f, 5, fa, 0, 12) == bpf_eval(p, f, 6, fa, 0, 11));
                                lemma_addr_part(connect_ip, connect_port, f, fa, 0, 11);
                            }
                        }
                    },
                }
            }
        },
    }
}

} // verus!
