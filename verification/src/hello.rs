//! The fake TLS ClientHello that gets injected out-of-window.
//!
//! The template is a real 517-byte ClientHello; the client random, session
//! id, key share and SNI are rewritten, and the SNI's length change is
//! absorbed in the trailing padding extension so the frame is always exactly
//! 517 bytes. DPI has to be able to parse it; the server never sees it (it
//! arrives before the receive window).
//!
//! The three random fields are the caller's to draw from the operating
//! system: this module only lays them out.
use crate::checksum::be16_bytes;
use crate::text::{decimal, push_decimal};
use vstd::prelude::*;
use vstd::string::StringSliceAdditionalSpecFns;

verus! {

/// The non-zero head of the template ClientHello; the rest of its 517 bytes
/// are zero.
pub const TEMPLATE_HEAD: [u8; 304] = [
    0x16, 0x03, 0x01, 0x02, 0x00, 0x01, 0x00, 0x01, 0xfc, 0x03, 0x03, 0x41,
    0xd5, 0xb5, 0x49, 0xd9, 0xcd, 0x1a, 0xdf, 0xa7, 0x29, 0x6c, 0x84, 0x18,
    0xd1, 0x57, 0xdc, 0x7b, 0x62, 0x4c, 0x84, 0x28, 0x24, 0xff, 0x49, 0x3b,
    0x93, 0x75, 0xbb, 0x48, 0xd3, 0x4f, 0x2b, 0x20, 0xbf, 0x01, 0x8b, 0xcc,
    0x90, 0xa7, 0xc8, 0x9a, 0x23, 0x00, 0x94, 0x81, 0x5a, 0xd0, 0xc1, 0x5b,
    0x73, 0x6e, 0x38, 0xc0, 0x12, 0x09, 0xd7, 0x2d, 0x28, 0x2c, 0xb5, 0xe2,
    0x10, 0x53, 0x28, 0x15, 0x00, 0x24, 0x13, 0x02, 0x13, 0x03, 0x13, 0x01,
    0xc0, 0x2c, 0xc0, 0x30, 0xc0, 0x2b, 0xc0, 0x2f, 0xcc, 0xa9, 0xcc, 0xa8,
    0xc0, 0x24, 0xc0, 0x28, 0xc0, 0x23, 0xc0, 0x27, 0x00, 0x9f, 0x00, 0x9e,
    0x00, 0x6b, 0x00, 0x67, 0x00, 0xff, 0x01, 0x00, 0x01, 0x8f, 0x00, 0x00,
    0x00, 0x0b, 0x00, 0x09, 0x00, 0x00, 0x06, 0x6d, 0x63, 0x69, 0x2e, 0x69,
    0x72, 0x00, 0x0b, 0x00, 0x04, 0x03, 0x00, 0x01, 0x02, 0x00, 0x0a, 0x00,
    0x16, 0x00, 0x14, 0x00, 0x1d, 0x00, 0x17, 0x00, 0x1e, 0x00, 0x19, 0x00,
    0x18, 0x01, 0x00, 0x01, 0x01, 0x01, 0x02, 0x01, 0x03, 0x01, 0x04, 0x00,
    0x23, 0x00, 0x00, 0x00, 0x10, 0x00, 0x0e, 0x00, 0x0c, 0x02, 0x68, 0x32,
    0x08, 0x68, 0x74, 0x74, 0x70, 0x2f, 0x31, 0x2e, 0x31, 0x00, 0x16, 0x00,
    0x00, 0x00, 0x17, 0x00, 0x00, 0x00, 0x0d, 0x00, 0x2a, 0x00, 0x28, 0x04,
    0x03, 0x05, 0x03, 0x06, 0x03, 0x08, 0x07, 0x08, 0x08, 0x08, 0x09, 0x08,
    0x0a, 0x08, 0x0b, 0x08, 0x04, 0x08, 0x05, 0x08, 0x06, 0x04, 0x01, 0x05,
    0x01, 0x06, 0x01, 0x03, 0x03, 0x03, 0x01, 0x03, 0x02, 0x04, 0x02, 0x05,
    0x02, 0x06, 0x02, 0x00, 0x2b, 0x00, 0x05, 0x04, 0x03, 0x04, 0x03, 0x03,
    0x00, 0x2d, 0x00, 0x02, 0x01, 0x01, 0x00, 0x33, 0x00, 0x26, 0x00, 0x24,
    0x00, 0x1d, 0x00, 0x20, 0x43, 0x5b, 0xac, 0xc4, 0xd0, 0x5f, 0x9d, 0x41,
    0xfe, 0xf4, 0x4a, 0xb3, 0xad, 0x55, 0x61, 0x6c, 0x36, 0xe0, 0x61, 0x34,
    0x73, 0xe2, 0x33, 0x87, 0x70, 0xef, 0xda, 0xa9, 0x86, 0x93, 0xd2, 0x17,
    0x00, 0x15, 0x00, 0xd5,
];

/// Every fake ClientHello is exactly this long.
pub const FRAME_LEN: usize = 517;

/// The longest SNI that fits the template's padding.
pub const MAX_SNI: usize = 219;

/// The whole template: its head, zero-padded to [`FRAME_LEN`].
pub open spec fn template_bytes() -> Seq<u8> {
    TEMPLATE_HEAD@ + Seq::new((FRAME_LEN - 304) as nat, |i: int| 0u8)
}

/// The template ClientHello, zero-padded out to 517 bytes.
pub fn template() -> (r: Vec<u8>)
    ensures
        r@ == template_bytes(),
{
    let mut out: Vec<u8> = Vec::with_capacity(FRAME_LEN);
    let head = TEMPLATE_HEAD.as_slice();
    assert(head@ == TEMPLATE_HEAD@);
    out.extend_from_slice(head);
    assert(out@ =~= TEMPLATE_HEAD@);
    out.resize(FRAME_LEN, 0u8);
    assert(out@.subrange(0, 304) =~= TEMPLATE_HEAD@);
    assert(out@ =~= template_bytes());
    out
}

/// The ClientHello up to its zero padding: template bytes with the random
/// fields replaced, the server_name extension rebuilt for `sni`, and the
/// padding extension's length set to absorb the SNI's length.
pub open spec fn hello_body(
    sni: Seq<u8>,
    client_random: Seq<u8>,
    session_id: Seq<u8>,
    key_share: Seq<u8>,
) -> Seq<u8> {
    let n = sni.len() as int;
    let t = template_bytes();
    t.subrange(0, 11) + client_random + seq![0x20u8] + session_id + t.subrange(76, 120)
        + be16_bytes(n + 5) + be16_bytes(n + 3) + seq![0u8] + be16_bytes(n) + sni + t.subrange(
        133,
        268,
    ) + key_share + seq![0x00u8, 0x15u8] + be16_bytes(MAX_SNI - n)
}

/// The fake ClientHello for `sni`: [`hello_body`] zero-padded to 517 bytes.
pub open spec fn spec_client_hello(
    sni: Seq<u8>,
    client_random: Seq<u8>,
    session_id: Seq<u8>,
    key_share: Seq<u8>,
) -> Seq<u8> {
    let body = hello_body(sni, client_random, session_id, key_share);
    body + Seq::new((FRAME_LEN - body.len()) as nat, |i: int| 0u8)
}

/// The message an over-long SNI is refused with.
pub open spec fn sni_too_long_message(len: nat) -> Seq<char> {
    "FAKE_SNI is "@ + decimal(len) + " bytes, maximum is 219"@
}

/// Builds the fake ClientHello for `sni` from the three 32-byte random
/// fields: the client random, the session id and the x25519 key share.
/// Refuses an SNI longer than [`MAX_SNI`] bytes.
pub fn build_client_hello(
    sni: &str,
    client_random: &[u8; 32],
    session_id: &[u8; 32],
    key_share: &[u8; 32],
) -> (r: Result<Vec<u8>, String>)
    ensures
        r is Ok <==> sni.spec_bytes().len() <= MAX_SNI,
        r matches Ok(out) ==> out@ == spec_client_hello(
            sni.spec_bytes(),
            client_random@,
            session_id@,
            key_share@,
        ),
        r matches Err(msg) ==> msg@ == sni_too_long_message(sni.spec_bytes().len()),
{
    let sni = sni.as_bytes();
    let n = sni.len();
    if n > MAX_SNI {
        let mut msg = String::from_str("FAKE_SNI is ");
        push_decimal(&mut msg, n as u128);
        msg.append(" bytes, maximum is 219");
        return Err(msg);
    }
    let tpl = template();
    let pad_len = MAX_SNI - n;

    let mut out: Vec<u8> = Vec::with_capacity(FRAME_LEN);
    out.extend_from_slice(&tpl.as_slice()[0..11]);
    out.extend_from_slice(client_random.as_slice());
    out.push(0x20u8);
    out.extend_from_slice(session_id.as_slice());
    out.extend_from_slice(&tpl.as_slice()[76..120]);
    let l5 = (n + 5) as u16;
    out.push((l5 / 256) as u8);
    out.push((l5 % 256) as u8);
    let l3 = (n + 3) as u16;
    out.push((l3 / 256) as u8);
    out.push((l3 % 256) as u8);
    out.push(0x00u8);
    let l0 = n as u16;
    out.push((l0 / 256) as u8);
    out.push((l0 % 256) as u8);
    out.extend_from_slice(sni);
    out.extend_from_slice(&tpl.as_slice()[133..268]);
    out.extend_from_slice(key_share.as_slice());
    out.push(0x00u8);
    out.push(0x15u8);
    let lp = pad_len as u16;
    out.push((lp / 256) as u8);
    out.push((lp % 256) as u8);
    assert(out@ =~= hello_body(sni@, client_random@, session_id@, key_share@));
    out.resize(FRAME_LEN, 0u8);
    assert(out@ =~= spec_client_hello(sni@, client_random@, session_id@, key_share@));
    Ok(out)
}

/// The ClientHello law: whatever the SNI that fits, the frame is exactly
/// 517 bytes; the server_name extension at offset 120 carries the lengths
/// `n + 5`, `n + 3`, the host_name type and `n` followed by the SNI itself;
/// and the client random sits at offset 11. Around them the template stands
/// as it is: its first 11 bytes, the session id length 0x20 and the session
/// id at 44, the template's bytes 76..120 (cipher suites and compression),
/// and right after the SNI the template's own extensions, bytes 133..268,
/// moved by the SNI's length; then the key share, the padding extension
/// (type 0x0015, length `219 - n`) and zeros to the end.
pub proof fn lemma_client_hello_layout(
    sni: Seq<u8>,
    client_random: Seq<u8>,
    session_id: Seq<u8>,
    key_share: Seq<u8>,
)
    requires
        sni.len() <= MAX_SNI,
        client_random.len() == 32,
        session_id.len() == 32,
        key_share.len() == 32,
    ensures
        ({
            let out = spec_client_hello(sni, client_random, session_id, key_share);
            let n = sni.len() as int;
            &&& out.len() == FRAME_LEN
            &&& out.subrange(120, 122) == be16_bytes(n + 5)
            &&& out.subrange(122, 124) == be16_bytes(n + 3)
            &&& out[124] == 0
            &&& out.subrange(125, 127) == be16_bytes(n)
            &&& out.subrange(127, 127 + n) == sni
            &&& out.subrange(11, 43) == client_random
            &&& out.subrange(0, 11) == template_bytes().subrange(0, 11)
            &&& out[43] == 0x20
            &&& out.subrange(44, 76) == session_id
            &&& out.subrange(76, 120) == template_bytes().subrange(76, 120)
            &&& out.subrange(127 + n, 262 + n) == template_bytes().subrange(133, 268)
            &&& out.subrange(262 + n, 294 + n) == key_share
            &&& out[294 + n] == 0x00
            &&& out[295 + n] == 0x15
            &&& out.subrange(296 + n, 298 + n) == be16_bytes(MAX_SNI - n)
            &&& forall|i: int| 298 + n <= i < FRAME_LEN ==> #[trigger] out[i] == 0
        }),
{
    let out = spec_client_hello(sni, client_random, session_id, key_share);
    let body = hello_body(sni, client_random, session_id, key_share);
    let n = sni.len() as int;
    let t = template_bytes();
    assert(body.len() == 298 + n);
    assert(out.subrange(0, 11) =~= t.subrange(0, 11));
    assert(out.subrange(44, 76) =~= session_id);
    assert(out.subrange(76, 120) =~= t.subrange(76, 120));
    assert(out.subrange(127 + n, 262 + n) =~= t.subrange(133, 268));
    assert(out.subrange(262 + n, 294 + n) =~= key_share);
    assert(out.subrange(296 + n, 298 + n) =~= be16_bytes(MAX_SNI - n));
    assert(out.subrange(120, 122) =~= be16_bytes(n + 5));
    assert(out.subrange(122, 124) =~= be16_bytes(n + 3));
    assert(out.subrange(125, 127) =~= be16_bytes(n));
    assert(out.subrange(127, 127 + n) =~= sni);
    assert(out.subrange(11, 43) =~= client_random);
}

/// The SNI the template itself carries.
pub open spec fn template_sni() -> Seq<u8> {
    template_bytes().subrange(127, 133)
}

/// The template law: built for the SNI the template carries, the ClientHello
/// is the template byte for byte, except in the three fields drawn at
/// random — the client random (11..43), the session id (44..76) and the
/// x25519 key share (268..300).
pub proof fn lemma_template_sni_rebuilds_the_template(
    client_random: Seq<u8>,
    session_id: Seq<u8>,
    key_share: Seq<u8>,
)
    requires
        client_random.len() == 32,
        session_id.len() == 32,
        key_share.len() == 32,
    ensures
        ({
            let out = spec_client_hello(template_sni(), client_random, session_id, key_share);
            &&& out.len() == FRAME_LEN
            &&& forall|i: int|
                0 <= i < FRAME_LEN && !(11 <= i < 43) && !(44 <= i < 76) && !(268 <= i < 300)
                    ==> #[trigger] out[i] == template_bytes()[i]
        }),
{
    let t = template_bytes();
    let sni = template_sni();
    let out = spec_client_hello(sni, client_random, session_id, key_share);
    let body = hello_body(sni, client_random, session_id, key_share);
    assert(t.len() == 517);
    assert(sni.len() == 6);
    assert(body.len() == 304);
    assert(t[43] == 0x20);
    assert(t[120] == 0 && t[121] == 11 && t[122] == 0 && t[123] == 9 && t[124] == 0);
    assert(t[125] == 0 && t[126] == 6);
    assert(t[300] == 0 && t[301] == 0x15 && t[302] == 0 && t[303] == 0xd5);
    assert forall|i: int|
        0 <= i < FRAME_LEN && !(11 <= i < 43) && !(44 <= i < 76) && !(268 <= i < 300)
            implies #[trigger] out[i] == t[i] by {
        if i < 304 {
            assert(out[i] == body[i]);
        } else {
            assert(t[i] == 0);
        }
    }
}

} // verus!
