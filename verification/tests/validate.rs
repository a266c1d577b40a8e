use snifake::hello::build_client_hello;
use snifake::proto::Profile;
use snifake::validate::{parse_ipv4, validate, validate_sni};

fn good() -> Profile {
    Profile {
        id: "p1".into(),
        name: "Vercel".into(),
        listen_host: "127.0.0.1".into(),
        listen_port: 40443,
        connect_ip: "104.18.4.130".into(),
        connect_port: 443,
        fake_sni: "security.vercel.com".into(),
    }
}

#[test]
fn accepts_a_well_formed_profile() {
    assert!(validate(&good()).is_ok());
}

#[test]
fn rejects_a_non_ipv4_upstream() {
    for bad in ["", "example.com", "999.1.1.1", "::1", "104.18.4"] {
        let mut p = good();
        p.connect_ip = bad.into();
        assert!(validate(&p).is_err(), "{bad} must be rejected");
    }
}

#[test]
fn rejects_port_zero() {
    let mut p = good();
    p.listen_port = 0;
    assert!(validate(&p).is_err());
    let mut p = good();
    p.connect_port = 0;
    assert!(validate(&p).is_err());
}

#[test]
fn rejects_a_listen_host_that_is_not_an_ipv4_address() {
    for bad in ["", "localhost", "0.0.0.0.0", "$(whoami)"] {
        let mut p = good();
        p.listen_host = bad.into();
        assert!(validate(&p).is_err(), "{bad} must be rejected");
    }
}

#[test]
fn rejects_a_malformed_or_oversized_sni() {
    for bad in ["", "not a hostname", "-leading.dash.com", &"x".repeat(220)] {
        let mut p = good();
        p.fake_sni = bad.into();
        assert!(validate(&p).is_err(), "{bad:?} must be rejected");
    }
}

#[test]
fn accepts_the_wildcard_listen_host() {
    let mut p = good();
    p.listen_host = "0.0.0.0".into();
    assert!(validate(&p).is_ok());
}

#[test]
fn accepts_an_sni_of_exactly_the_maximum_length() {
    let mut p = good();
    let l = "x".repeat(63);
    p.fake_sni = format!("{l}.{l}.{l}.{}", "x".repeat(27));
    assert_eq!(p.fake_sni.len(), 219);
    assert!(validate(&p).is_ok(), "{:?}", validate(&p));
    assert!(build_client_hello(&p.fake_sni, &[1; 32], &[2; 32], &[3; 32]).is_ok());
}

#[test]
fn each_refusal_names_its_reason() {
    let mut p = good();
    p.listen_host = "localhost".into();
    assert_eq!(validate(&p).unwrap_err(), "LISTEN_HOST 'localhost' is not an IPv4 address");
    let mut p = good();
    p.connect_ip = "104.18.4".into();
    assert_eq!(validate(&p).unwrap_err(), "CONNECT_IP '104.18.4' is not an IPv4 address");
    let mut p = good();
    p.listen_port = 0;
    assert_eq!(validate(&p).unwrap_err(), "LISTEN_PORT must be between 1 and 65535");
    let mut p = good();
    p.connect_port = 0;
    assert_eq!(validate(&p).unwrap_err(), "CONNECT_PORT must be between 1 and 65535");
}

#[test]
fn sni_refusals_name_their_reason() {
    assert_eq!(validate_sni("").unwrap_err(), "FAKE_SNI cannot be empty");
    assert_eq!(
        validate_sni(&"x".repeat(220)).unwrap_err(),
        "FAKE_SNI is 220 bytes, maximum is 219"
    );
    assert_eq!(
        validate_sni("a..b").unwrap_err(),
        "FAKE_SNI 'a..b' has an empty or over-long label"
    );
    assert_eq!(
        validate_sni(&format!("{}.com", "x".repeat(64))).unwrap_err(),
        format!("FAKE_SNI '{}.com' has an empty or over-long label", "x".repeat(64))
    );
    assert_eq!(
        validate_sni("a-.com").unwrap_err(),
        "FAKE_SNI 'a-.com' has a label starting or ending with '-'"
    );
    assert_eq!(
        validate_sni("not a hostname").unwrap_err(),
        "FAKE_SNI 'not a hostname' contains characters not valid in a hostname"
    );
    assert!(validate_sni("a-b.example-1.com").is_ok());
}

#[test]
fn the_ipv4_parser_follows_the_standard_library() {
    assert_eq!(parse_ipv4("104.18.4.130"), Some([104, 18, 4, 130]));
    assert_eq!(parse_ipv4("0.0.0.0"), Some([0, 0, 0, 0]));
    assert_eq!(parse_ipv4("255.255.255.255"), Some([255, 255, 255, 255]));
    for bad in ["256.0.0.1", "01.2.3.4", "1.2.3.4.", "1.2.3", "1..2.3", " 1.2.3.4", "1.2.3.+4"] {
        assert_eq!(parse_ipv4(bad), None, "{bad}");
    }
    assert_eq!(parse_ipv4("10.0.0.1"), Some([10, 0, 0, 1]));
    assert_eq!(parse_ipv4("192.168.100.200"), Some([192, 168, 100, 200]));
}
