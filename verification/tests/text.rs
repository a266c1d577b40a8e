use snifake::text::{chars_of, decimal_string, hex, str_eq, wide};
use std::collections::hash_map::RandomState;
use std::hash::{BuildHasher, Hasher};

fn random_bytes(n: usize) -> Vec<u8> {
    let mut out = Vec::with_capacity(n);
    while out.len() < n {
        let mut h = RandomState::new().build_hasher();
        h.write_usize(out.len());
        out.extend_from_slice(&h.finish().to_le_bytes());
    }
    out.truncate(n);
    out
}

#[test]
fn hex_returns_two_characters_per_byte() {
    let s = hex(&random_bytes(16));
    assert_eq!(s.len(), 32);
    assert!(s.chars().all(|c| c.is_ascii_hexdigit()));
    assert_ne!(s, hex(&random_bytes(16)));
}

#[test]
fn hex_is_lowercase_high_nibble_first() {
    assert_eq!(hex(&[0x00, 0x0f, 0xa5, 0xff]), "000fa5ff");
    assert_eq!(hex(&[]), "");
}

#[test]
fn decimal_strings_have_no_leading_zeros() {
    assert_eq!(decimal_string(0), "0");
    assert_eq!(decimal_string(7), "7");
    assert_eq!(decimal_string(40443), "40443");
    assert_eq!(decimal_string(u128::MAX), u128::MAX.to_string());
}

#[test]
fn wide_is_nul_terminated_utf16() {
    assert_eq!(wide("runas"), vec![0x72, 0x75, 0x6e, 0x61, 0x73, 0]);
    assert_eq!(wide(""), vec![0]);
    let s = "a\u{e9}\u{1F600}";
    let mut expect: Vec<u16> = s.encode_utf16().collect();
    expect.push(0);
    assert_eq!(wide(s), expect);
}

#[test]
fn str_eq_compares_text() {
    assert!(str_eq("running", "running"));
    assert!(!str_eq("running", "runnin"));
    assert!(!str_eq("running", "Running"));
    assert!(str_eq("", ""));
}

#[test]
fn chars_of_keeps_every_character() {
    assert_eq!(chars_of("a\u{e9}z"), vec!['a', '\u{e9}', 'z']);
}

#[test]
fn tokens_are_unique_and_long_enough_to_be_unguessable() {
    let a = hex(&random_bytes(16));
    let b = hex(&random_bytes(16));
    assert_eq!(a.len(), 32);
    assert!(a.chars().all(|c| c.is_ascii_hexdigit()));
    assert_ne!(a, b);
}
