use snifake::filter::{
    insn, upstream_only, Insn, ACCEPT, ACCEPT_AT, DROP, DROP_AT, JEQ_K, JSET_K, LDX_B_MSH, LD_B_ABS,
    LD_H_ABS, LD_H_IND, LD_W_ABS, RET_K,
};

/// A classic-BPF interpreter covering exactly the opcodes the program uses,
/// so the program is checked by execution. Out-of-range loads return 0, as
/// the kernel's do.
fn run(prog: &[Insn], frame: &[u8]) -> u32 {
    let load = |at: u32, width: usize| -> Option<u32> {
        let at = at as usize;
        let end = at.checked_add(width)?;
        let bytes = frame.get(at..end)?;
        Some(bytes.iter().fold(0u32, |acc, b| (acc << 8) | *b as u32))
    };

    let (mut a, mut x) = (0u32, 0u32);
    let mut pc = 0usize;
    for _ in 0..1024 {
        let i = prog.get(pc).expect("program ran off the end");
        pc += 1;
        match i.code {
            LD_W_ABS | LD_H_ABS | LD_B_ABS => {
                let width = match i.code {
                    LD_W_ABS => 4,
                    LD_H_ABS => 2,
                    _ => 1,
                };
                let Some(v) = load(i.k, width) else { return 0 };
                a = v;
            }
            LD_H_IND => {
                let Some(v) = x.checked_add(i.k).and_then(|at| load(at, 2)) else {
                    return 0;
                };
                a = v;
            }
            LDX_B_MSH => {
                let Some(v) = load(i.k, 1) else { return 0 };
                x = 4 * (v & 0x0f);
            }
            JEQ_K => pc += if a == i.k { i.jt } else { i.jf } as usize,
            JSET_K => pc += if a & i.k != 0 { i.jt } else { i.jf } as usize,
            RET_K => return i.k,
            other => panic!("the program emitted an opcode the test cannot run: {other:#x}"),
        }
    }
    panic!("the program did not terminate");
}

const UPSTREAM: [u8; 4] = [104, 18, 4, 130];
const LOCAL: [u8; 4] = [192, 168, 1, 10];
const PORT: u16 = 443;

struct Frame {
    ethertype: u16,
    proto: u8,
    ihl: usize,
    frag: u16,
    src: [u8; 4],
    dst: [u8; 4],
    sport: u16,
    dport: u16,
}

impl Default for Frame {
    fn default() -> Self {
        Frame {
            ethertype: 0x0800,
            proto: 6,
            ihl: 20,
            frag: 0,
            src: LOCAL,
            dst: UPSTREAM,
            sport: 51000,
            dport: PORT,
        }
    }
}

impl Frame {
    fn bytes(&self) -> Vec<u8> {
        let mut f = vec![0u8; 14];
        f[12..14].copy_from_slice(&self.ethertype.to_be_bytes());
        let mut ip = vec![0u8; self.ihl];
        ip[0] = 0x40 | (self.ihl / 4) as u8;
        ip[6..8].copy_from_slice(&self.frag.to_be_bytes());
        ip[9] = self.proto;
        ip[12..16].copy_from_slice(&self.src);
        ip[16..20].copy_from_slice(&self.dst);
        f.extend_from_slice(&ip);
        f.extend_from_slice(&self.sport.to_be_bytes());
        f.extend_from_slice(&self.dport.to_be_bytes());
        f.extend_from_slice(&[0u8; 16]);
        f
    }
}

fn verdict(frame: &Frame) -> u32 {
    run(&upstream_only(UPSTREAM, PORT), &frame.bytes())
}

#[test]
fn the_jump_targets_land_on_the_two_returns() {
    let prog = upstream_only(UPSTREAM, PORT);
    assert_eq!(prog[ACCEPT_AT], insn(RET_K, 0, 0, ACCEPT));
    assert_eq!(prog[DROP_AT], insn(RET_K, 0, 0, DROP));
    for (at, i) in prog.iter().enumerate() {
        if i.code == RET_K {
            continue;
        }
        for target in [i.jt, i.jf] {
            assert!(
                at + 1 + target as usize <= DROP_AT,
                "instruction {at} jumps past the end of the program"
            );
        }
    }
}

#[test]
fn keeps_both_directions_of_the_upstream_connection() {
    assert_eq!(verdict(&Frame::default()), ACCEPT, "outbound");
    assert_eq!(
        verdict(&Frame {
            src: UPSTREAM,
            dst: LOCAL,
            sport: PORT,
            dport: 51000,
            ..Frame::default()
        }),
        ACCEPT,
        "inbound"
    );
}

#[test]
fn reads_the_ports_past_ip_options() {
    assert_eq!(verdict(&Frame { ihl: 24, ..Frame::default() }), ACCEPT);
}

#[test]
fn drops_everything_that_is_not_this_connection() {
    let cases: [(&str, Frame); 6] = [
        ("another host", Frame { dst: [1, 1, 1, 1], ..Frame::default() }),
        ("another port on the same host", Frame { dport: 8443, ..Frame::default() }),
        ("UDP", Frame { proto: 17, ..Frame::default() }),
        ("IPv6", Frame { ethertype: 0x86dd, ..Frame::default() }),
        ("ARP", Frame { ethertype: 0x0806, ..Frame::default() }),
        ("a later fragment", Frame { frag: 0x0001, ..Frame::default() }),
    ];
    for (what, frame) in cases {
        assert_eq!(verdict(&frame), DROP, "{what} must be dropped");
    }
}

#[test]
fn the_dont_fragment_bit_is_not_a_fragment() {
    assert_eq!(verdict(&Frame { frag: 0x4000, ..Frame::default() }), ACCEPT);
}

#[test]
fn a_truncated_frame_is_dropped_rather_than_read_out_of_bounds() {
    let full = Frame::default().bytes();
    for len in 0..38 {
        assert_eq!(
            run(&upstream_only(UPSTREAM, PORT), &full[..len]),
            DROP,
            "a {len}-byte frame must not be accepted"
        );
    }
}

#[test]
fn the_program_is_seventeen_instructions_ending_in_the_two_returns() {
    let prog = upstream_only(UPSTREAM, PORT);
    assert_eq!(prog.len(), 17);
    assert_eq!(prog[15].code, RET_K);
    assert_eq!(prog[16].code, RET_K);
}
