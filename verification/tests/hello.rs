use snifake::hello::{build_client_hello, template};
use std::collections::hash_map::RandomState;
use std::hash::{BuildHasher, Hasher};

/// 32 bytes that differ from one call to the next.
fn random32() -> [u8; 32] {
    let mut out = [0u8; 32];
    for chunk in out.chunks_mut(8) {
        let mut h = RandomState::new().build_hasher();
        h.write_u64(0x5eed);
        chunk.copy_from_slice(&h.finish().to_le_bytes());
    }
    out
}

fn hello(sni: &str) -> Result<Vec<u8>, String> {
    build_client_hello(sni, &random32(), &random32(), &random32())
}

#[test]
fn client_hello_is_always_517_bytes() {
    for sni in ["a", "security.vercel.com", &"x".repeat(219)] {
        let out = hello(sni).unwrap();
        assert_eq!(out.len(), 517, "sni len {} produced {}", sni.len(), out.len());
    }
}

#[test]
fn client_hello_embeds_the_sni_with_correct_length_prefixes() {
    let sni = "security.vercel.com";
    let out = hello(sni).unwrap();
    let n = sni.len();
    assert_eq!(u16::from_be_bytes([out[120], out[121]]), (n + 5) as u16);
    assert_eq!(u16::from_be_bytes([out[122], out[123]]), (n + 3) as u16);
    assert_eq!(out[124], 0x00);
    assert_eq!(u16::from_be_bytes([out[125], out[126]]), n as u16);
    assert_eq!(&out[127..127 + n], sni.as_bytes());
}

#[test]
fn client_hello_randomises_the_random_field() {
    let a = hello("example.com").unwrap();
    let b = hello("example.com").unwrap();
    assert_ne!(a[11..43], b[11..43], "client random must differ per call");
}

#[test]
fn client_hello_rejects_an_oversized_sni() {
    assert!(hello(&"x".repeat(220)).is_err());
}

#[test]
fn the_random_fields_land_where_the_record_says() {
    let cr = [1u8; 32];
    let sid = [2u8; 32];
    let ks = [3u8; 32];
    let sni = "example.com";
    let out = build_client_hello(sni, &cr, &sid, &ks).unwrap();
    assert_eq!(&out[0..3], &[0x16, 0x03, 0x01]);
    assert_eq!(&out[11..43], &cr);
    assert_eq!(out[43], 0x20);
    assert_eq!(&out[44..76], &sid);
    let ks_at = 127 + sni.len() + 135;
    assert_eq!(&out[ks_at..ks_at + 32], &ks);
    assert_eq!(&out[ks_at + 32..ks_at + 34], &[0x00, 0x15]);
    let pad = u16::from_be_bytes([out[ks_at + 34], out[ks_at + 35]]) as usize;
    assert_eq!(pad, 219 - sni.len());
    assert!(out[ks_at + 36..].iter().all(|b| *b == 0));
}

#[test]
fn an_oversized_sni_is_refused_with_its_length() {
    assert_eq!(
        hello(&"x".repeat(300)).unwrap_err(),
        "FAKE_SNI is 300 bytes, maximum is 219"
    );
}

#[test]
fn the_template_sni_rebuilds_the_template_outside_the_random_fields() {
    let tpl = template();
    assert_eq!(&tpl[127..133], b"mci.ir");
    let out = hello("mci.ir").unwrap();
    assert_eq!(out.len(), 517);
    for i in 0..517 {
        if (11..43).contains(&i) || (44..76).contains(&i) || (268..300).contains(&i) {
            continue;
        }
        assert_eq!(out[i], tpl[i], "byte {i}");
    }
}
