//! Trust boundary. The engine runs as root; the GUI's validation is a
//! convenience for the user, this one is the actual guarantee.
use crate::hello::{sni_too_long_message, MAX_SNI};
use crate::proto::Profile;
use crate::text::{push_decimal, split_bytes, split_on, views};
use vstd::prelude::*;
use vstd::string::StringSliceAdditionalSpecFns;
use vstd::utf8::encode_utf8;

verus! {

/// An ASCII decimal digit.
pub open spec fn is_digit(b: u8) -> bool {
    48 <= b <= 57
}

/// An ASCII letter or digit.
pub open spec fn is_alnum(b: u8) -> bool {
    is_digit(b) || (65 <= b <= 90) || (97 <= b <= 122)
}

/// The decimal value of a run of digits.
pub open spec fn dec_value(p: Seq<u8>) -> int
    decreases p.len(),
{
    if p.len() == 0 {
        0
    } else {
        dec_value(p.drop_last()) * 10 + (p.last() - 48)
    }
}

/// One dotted-quad octet as the standard library's IPv4 parser accepts it:
/// one to three decimal digits, no leading zero unless it is the only
/// digit, and a value of at most 255.
pub open spec fn octet_ok(p: Seq<u8>) -> bool {
    &&& 1 <= p.len() <= 3
    &&& forall|i: int| 0 <= i < p.len() ==> is_digit(#[trigger] p[i])
    &&& p.len() > 1 ==> p[0] != 48
    &&& dec_value(p) <= 255
}

/// `s` is an IPv4 address in dotted-quad form: exactly four octets
/// separated by dots, and nothing else.
pub open spec fn ipv4_ok(s: Seq<u8>) -> bool {
    let parts = split_on(s, 46);
    &&& parts.len() == 4
    &&& forall|i: int| 0 <= i < 4 ==> octet_ok(#[trigger] parts[i])
}

/// The four octets of an address for which [`ipv4_ok`] holds.
pub open spec fn ipv4_octets(s: Seq<u8>) -> Seq<u8> {
    let parts = split_on(s, 46);
    seq![
        dec_value(parts[0]) as u8,
        dec_value(parts[1]) as u8,
        dec_value(parts[2]) as u8,
        dec_value(parts[3]) as u8,
    ]
}

/// The decimal digits of `n` as ASCII bytes, most significant first, with
/// no leading zero.
pub open spec fn dec_digits(n: nat) -> Seq<u8>
    decreases n,
{
    if n < 10 {
        seq![(48 + n) as u8]
    } else {
        dec_digits(n / 10).push((48 + n % 10) as u8)
    }
}

/// Digits read back give the number they were written from.
proof fn lemma_dec_value_of_digits(n: nat)
    ensures
        dec_value(dec_digits(n)) == n,
    decreases n,
{
    let d = dec_digits(n);
    if n >= 10 {
        lemma_dec_value_of_digits(n / 10);
        assert(d.drop_last() =~= dec_digits(n / 10));
        assert(d.last() as int == 48 + n % 10);
        vstd::arithmetic::div_mod::lemma_fundamental_div_mod(n as int, 10);
        assert(dec_value(d) == dec_value(d.drop_last()) * 10 + (d.last() - 48));
    } else {
        assert(d.drop_last() =~= Seq::<u8>::empty());
        assert(dec_value(d.drop_last()) == 0);
        assert(d.last() as int == 48 + n);
    }
}

/// The octet law: an octet is accepted exactly when it is the decimal
/// rendering, without leading zeros, of a number from 0 to 255, and it is
/// read as that number.
pub proof fn lemma_octet_is_a_decimal_byte_value(p: Seq<u8>)
    ensures
        octet_ok(p) <==> exists|v: nat| v <= 255 && p == #[trigger] dec_digits(v),
        forall|v: nat| v <= 255 && p == #[trigger] dec_digits(v) ==> dec_value(p) == v,
{
    assert forall|v: nat| v <= 255 && p == #[trigger] dec_digits(v) implies dec_value(p) == v
        && octet_ok(p) by {
        lemma_dec_value_of_digits(v);
        if v >= 100 {
            assert(dec_digits(v / 10) == dec_digits(v / 100).push((48 + (v / 10) % 10) as u8));
            assert(dec_digits(v / 100) == seq![(48 + v / 100) as u8]);
            assert(p.len() == 3);
            assert(p[0] == (48 + v / 100) as u8);
        } else if v >= 10 {
            assert(dec_digits(v / 10) == seq![(48 + v / 10) as u8]);
            assert(p.len() == 2);
            assert(p[0] == (48 + v / 10) as u8);
        }
        assert forall|i: int| 0 <= i < p.len() implies is_digit(#[trigger] p[i]) by {
            if v >= 100 {
                assert(dec_digits(v / 10) == dec_digits(v / 100).push((48 + (v / 10) % 10) as u8));
            }
        }
    }
    if octet_ok(p) {
        let v = dec_value(p) as nat;
        assert(p.len() == 1 ==> p.drop_last() =~= Seq::<u8>::empty());
        if p.len() == 1 {
            assert(dec_value(p.drop_last()) == 0);
            assert(v == p[0] - 48);
            assert(p =~= dec_digits(v));
        } else if p.len() == 2 {
            let a = p.drop_last();
            assert(a.drop_last() =~= Seq::<u8>::empty());
            assert(a[0] == p[0]);
            assert(dec_value(a.drop_last()) == 0);
            assert(dec_value(a) == p[0] - 48);
            assert(v == (p[0] - 48) * 10 + (p[1] - 48));
            assert(v / 10 == p[0] - 48 && v % 10 == p[1] - 48);
            assert(dec_digits(v / 10) =~= seq![p[0]]);
            assert(p =~= dec_digits(v));
        } else {
            let a = p.drop_last();
            let b = a.drop_last();
            assert(b.drop_last() =~= Seq::<u8>::empty());
            assert(b[0] == p[0] && a[1] == p[1]);
            assert(dec_value(b.drop_last()) == 0);
            assert(dec_value(b) == p[0] - 48);
            assert(dec_value(a) == (p[0] - 48) * 10 + (p[1] - 48));
            assert(v == ((p[0] - 48) * 10 + (p[1] - 48)) * 10 + (p[2] - 48));
            assert(v / 10 == (p[0] - 48) * 10 + (p[1] - 48) && v % 10 == p[2] - 48);
            assert((v / 10) / 10 == p[0] - 48 && (v / 10) % 10 == p[1] - 48);
            assert(dec_digits((v / 10) / 10) =~= seq![p[0]]);
            assert(dec_digits(v / 10) =~= seq![p[0], p[1]]);
            assert(p =~= dec_digits(v));
        }
        assert(v <= 255 && p == dec_digits(v));
    }
}

/// The address law: a string is accepted exactly when its dot-separated
/// parts are four decimal renderings, without leading zeros, of numbers from
/// 0 to 255, and each part is the rendering of the octet read from it.
pub proof fn lemma_ipv4_is_four_decimal_bytes(s: Seq<u8>)
    ensures
        ipv4_ok(s) <==> {
            &&& split_on(s, 46).len() == 4
            &&& forall|i: int|
                0 <= i < 4 ==> exists|v: nat| v <= 255 && #[trigger] split_on(s, 46)[i] == dec_digits(v)
        },
        ipv4_ok(s) ==> forall|i: int|
            0 <= i < 4 ==> #[trigger] split_on(s, 46)[i] == dec_digits(ipv4_octets(s)[i] as nat),
{
    let parts = split_on(s, 46);
    lemma_octet_is_a_decimal_byte_value(parts[0]);
    lemma_octet_is_a_decimal_byte_value(parts[1]);
    lemma_octet_is_a_decimal_byte_value(parts[2]);
    lemma_octet_is_a_decimal_byte_value(parts[3]);
    if ipv4_ok(s) {
        assert forall|i: int| 0 <= i < 4 implies #[trigger] parts[i] == dec_digits(
            ipv4_octets(s)[i] as nat,
        ) by {
            assert(octet_ok(parts[i]));
            let v = choose|v: nat| v <= 255 && parts[i] == dec_digits(v);
            assert(dec_value(parts[i]) == v);
            assert(ipv4_octets(s)[i] as nat == v);
        }
    }
    if parts.len() == 4 && forall|i: int|
        0 <= i < 4 ==> exists|v: nat| v <= 255 && #[trigger] parts[i] == dec_digits(v) {
        assert forall|i: int| 0 <= i < 4 implies octet_ok(#[trigger] parts[i]) by {
            let v = choose|v: nat| v <= 255 && parts[i] == dec_digits(v);
            assert(parts[i] == dec_digits(v));
        }
    }
}

/// Parses one octet.
pub fn parse_octet(p: &[u8]) -> (r: Option<u8>)
    ensures
        r is Some <==> octet_ok(p@),
        r matches Some(v) ==> v == dec_value(p@),
{
    if p.len() == 0 || p.len() > 3 {
        return None;
    }
    if p.len() > 1 && p[0] == 48u8 {
        return None;
    }
    let mut v: u32 = 0;
    let mut i: usize = 0;
    while i < p.len()
        invariant
            i <= p@.len() <= 3,
            v == dec_value(p@.take(i as int)),
            i == 0 ==> v == 0,
            i == 1 ==> v < 10,
            i == 2 ==> v < 100,
            v < 1000,
            forall|j: int| 0 <= j < i ==> is_digit(#[trigger] p@[j]),
        decreases p@.len() - i,
    {
        let b = p[i];
        if b < 48u8 || b > 57u8 {
            return None;
        }
        assert(p@.take(i + 1).drop_last() =~= p@.take(i as int));
        v = v * 10 + (b - 48u8) as u32;
        i = i + 1;
    }
    assert(p@.take(i as int) =~= p@);
    if v > 255 {
        return None;
    }
    Some(v as u8)
}

/// Parses a dotted-quad IPv4 address, accepting exactly what the standard
/// library's `Ipv4Addr` parser accepts.
pub fn parse_ipv4(s: &str) -> (r: Option<[u8; 4]>)
    ensures
        r is Some <==> ipv4_ok(s.spec_bytes()),
        r matches Some(a) ==> a@ == ipv4_octets(s.spec_bytes()),
{
    let parts = split_bytes(s.as_bytes(), 46u8);
    let ghost ps = split_on(s.spec_bytes(), 46);
    assert(views(parts@) == ps);
    if parts.len() != 4 {
        return None;
    }
    assert(parts@[0]@ == ps[0] && parts@[1]@ == ps[1] && parts@[2]@ == ps[2] && parts@[3]@
        == ps[3]);
    let a = match parse_octet(parts[0].as_slice()) {
        Some(v) => v,
        None => return None,
    };
    let b = match parse_octet(parts[1].as_slice()) {
        Some(v) => v,
        None => return None,
    };
    let c = match parse_octet(parts[2].as_slice()) {
        Some(v) => v,
        None => return None,
    };
    let d = match parse_octet(parts[3].as_slice()) {
        Some(v) => v,
        None => return None,
    };
    assert forall|i: int| 0 <= i < 4 implies octet_ok(#[trigger] ps[i]) by {
        if i == 0 {
        } else if i == 1 {
        } else if i == 2 {
        } else {
        }
    }
    let r = [a, b, c, d];
    assert(r@ =~= ipv4_octets(s.spec_bytes()));
    Some(r)
}

/// What is wrong with one DNS label: 1 if it is empty or longer than 63
/// bytes, 2 if it starts or ends with `-`, 3 if it holds a byte that is
/// neither an ASCII letter or digit nor `-`, and 0 if nothing is.
pub open spec fn label_error(l: Seq<u8>) -> int {
    if l.len() == 0 || l.len() > 63 {
        1
    } else if l[0] == 45 || l.last() == 45 {
        2
    } else if !(forall|i: int| 0 <= i < l.len() ==> is_alnum(#[trigger] l[i]) || l[i] == 45) {
        3
    } else {
        0
    }
}

/// The error of the first label that has one, in order; 0 if none has.
pub open spec fn first_label_error(ls: Seq<Seq<u8>>) -> int
    decreases ls.len(),
{
    if ls.len() == 0 {
        0
    } else if label_error(ls[0]) != 0 {
        label_error(ls[0])
    } else {
        first_label_error(ls.skip(1))
    }
}

/// Why `sni` is not acceptable as a fake SNI, if it is not: empty, longer
/// than 219 bytes, or a label that [`label_error`] faults.
pub open spec fn sni_error(sni: Seq<char>) -> Option<Seq<char>> {
    let b = encode_utf8(sni);
    let e = first_label_error(split_on(b, 46));
    if b.len() == 0 {
        Some("FAKE_SNI cannot be empty"@)
    } else if b.len() > MAX_SNI {
        Some(sni_too_long_message(b.len()))
    } else if e == 1 {
        Some("FAKE_SNI '"@ + sni + "' has an empty or over-long label"@)
    } else if e == 2 {
        Some("FAKE_SNI '"@ + sni + "' has a label starting or ending with '-'"@)
    } else if e == 3 {
        Some("FAKE_SNI '"@ + sni + "' contains characters not valid in a hostname"@)
    } else {
        None
    }
}

/// A hostname label, byte by byte: 1 to 63 bytes, each an ASCII digit
/// (0x30..0x39), upper-case letter (0x41..0x5a), lower-case letter
/// (0x61..0x7a) or `-` (0x2d), with no `-` first or last. Digits may stand
/// anywhere, the first byte included.
pub open spec fn hostname_label(l: Seq<u8>) -> bool {
    &&& 1 <= l.len() <= 63
    &&& l[0] != 0x2d
    &&& l[l.len() - 1] != 0x2d
    &&& forall|i: int|
        0 <= i < l.len() ==> (0x30 <= #[trigger] l[i] <= 0x39) || (0x41 <= l[i] <= 0x5a) || (0x61
            <= l[i] <= 0x7a) || l[i] == 0x2d
}

/// The label law: a label is faulted exactly when it is not a hostname
/// label — in particular a label that starts with a digit, such as `163`, is
/// accepted — and the fault is 1 for an empty or over-long label, 2 for a
/// `-` at either end of one of fitting length, and 3 for any other.
pub proof fn lemma_label_error_is_zero_exactly_for_hostname_labels(l: Seq<u8>)
    ensures
        label_error(l) == 0 <==> hostname_label(l),
        label_error(l) == 1 <==> (l.len() == 0 || l.len() > 63),
        label_error(l) == 2 <==> (1 <= l.len() <= 63 && (l[0] == 0x2d || l[l.len() - 1]
            == 0x2d)),
        0 <= label_error(l) <= 3,
{
    if l.len() > 0 {
        assert(l.last() == l[l.len() - 1]);
    }
    if hostname_label(l) {
        assert(l.last() == l[l.len() - 1]);
        assert forall|i: int| 0 <= i < l.len() implies is_alnum(#[trigger] l[i]) || l[i] == 45 by {
        }
    }
    if label_error(l) == 0 {
        assert(l.last() == l[l.len() - 1]);
        assert forall|i: int|
            0 <= i < l.len() implies (0x30 <= #[trigger] l[i] <= 0x39) || (0x41 <= l[i] <= 0x5a)
            || (0x61 <= l[i] <= 0x7a) || l[i] == 0x2d by {
            assert(is_alnum(l[i]) || l[i] == 45);
        }
    }
}

/// [`first_label_error`] finds nothing exactly when every label is a
/// hostname label.
proof fn lemma_no_label_error(ls: Seq<Seq<u8>>)
    ensures
        first_label_error(ls) == 0 <==> forall|k: int|
            0 <= k < ls.len() ==> hostname_label(#[trigger] ls[k]),
    decreases ls.len(),
{
    if ls.len() > 0 {
        lemma_label_error_is_zero_exactly_for_hostname_labels(ls[0]);
        lemma_no_label_error(ls.skip(1));
        if forall|k: int| 0 <= k < ls.len() ==> hostname_label(#[trigger] ls[k]) {
            assert forall|k: int| 0 <= k < ls.skip(1).len() implies hostname_label(
                #[trigger] ls.skip(1)[k],
            ) by {
                assert(ls.skip(1)[k] == ls[k + 1]);
            }
        }
        if first_label_error(ls) == 0 {
            assert forall|k: int| 0 <= k < ls.len() implies hostname_label(#[trigger] ls[k]) by {
                if k > 0 {
                    assert(ls.skip(1)[k - 1] == ls[k]);
                }
            }
        }
    }
}

/// The SNI law: a name is accepted exactly when it is 1 to 219 bytes long
/// and its dot-separated labels are all hostname labels, whatever digits
/// they hold (`163.com`).
pub proof fn lemma_sni_accepted_exactly_for_hostnames(sni: Seq<char>)
    ensures
        sni_error(sni) is None <==> {
            &&& 0 < encode_utf8(sni).len() <= MAX_SNI
            &&& forall|k: int|
                0 <= k < split_on(encode_utf8(sni), 46).len() ==> hostname_label(
                    #[trigger] split_on(encode_utf8(sni), 46)[k],
                )
        },
{
    let ls = split_on(encode_utf8(sni), 46);
    lemma_no_label_error(ls);
    lemma_first_label_error_range(ls);
}

/// [`first_label_error`] is one of the label faults, or 0.
proof fn lemma_first_label_error_range(ls: Seq<Seq<u8>>)
    ensures
        0 <= first_label_error(ls) <= 3,
    decreases ls.len(),
{
    if ls.len() > 0 {
        lemma_label_error_is_zero_exactly_for_hostname_labels(ls[0]);
        lemma_first_label_error_range(ls.skip(1));
    }
}

fn check_label(l: &[u8]) -> (r: u8)
    ensures
        r == label_error(l@),
        r == 0 <==> hostname_label(l@),
{
    proof {
        lemma_label_error_is_zero_exactly_for_hostname_labels(l@);
    }
    if l.len() == 0 || l.len() > 63 {
        return 1;
    }
    if l[0] == 45u8 || l[l.len() - 1] == 45u8 {
        return 2;
    }
    let mut i: usize = 0;
    while i < l.len()
        invariant
            i <= l@.len(),
            1 <= l@.len() <= 63,
            l@[0] != 45 && l@.last() != 45,
            forall|j: int| 0 <= j < i ==> is_alnum(#[trigger] l@[j]) || l@[j] == 45,
        decreases l@.len() - i,
    {
        let b = l[i];
        let ok = (48u8 <= b && b <= 57u8) || (65u8 <= b && b <= 90u8) || (97u8 <= b && b <= 122u8)
            || b == 45u8;
        if !ok {
            assert(!(is_alnum(l@[i as int]) || l@[i as int] == 45));
            return 3;
        }
        i = i + 1;
    }
    0
}

fn sni_message(sni: &str, tail: &str) -> (r: String)
    ensures
        r@ == "FAKE_SNI '"@ + sni@ + tail@,
{
    let mut msg = String::from_str("FAKE_SNI '");
    msg.append(sni);
    msg.append(tail);
    msg
}

/// Checks a fake SNI: non-empty, at most 219 bytes, and every label a
/// hostname label.
pub fn validate_sni(sni: &str) -> (r: Result<(), String>)
    ensures
        match r {
            Ok(()) => sni_error(sni@) is None,
            Err(msg) => sni_error(sni@) == Some(msg@),
        },
{
    let bytes = sni.as_bytes();
    assert(bytes@ == encode_utf8(sni@));
    if bytes.len() == 0 {
        return Err(String::from_str("FAKE_SNI cannot be empty"));
    }
    if bytes.len() > MAX_SNI {
        let mut msg = String::from_str("FAKE_SNI is ");
        push_decimal(&mut msg, bytes.len() as u128);
        msg.append(" bytes, maximum is 219");
        return Err(msg);
    }
    let labels = split_bytes(bytes, 46u8);
    let ghost ls = split_on(bytes@, 46);
    let mut i: usize = 0;
    assert(ls.skip(0) =~= ls);
    while i < labels.len()
        invariant
            i <= labels@.len(),
            views(labels@) == ls,
            bytes@ == encode_utf8(sni@),
            0 < bytes@.len() <= MAX_SNI,
            ls == split_on(bytes@, 46),
            first_label_error(ls) == first_label_error(ls.skip(i as int)),
        decreases labels@.len() - i,
    {
        assert(labels@[i as int]@ == ls[i as int]);
        let e = check_label(labels[i].as_slice());
        assert(ls.skip(i as int)[0] == ls[i as int]);
        assert(ls.skip(i as int).skip(1) =~= ls.skip(i + 1));
        assert(first_label_error(ls.skip(i as int)) == if label_error(ls[i as int]) != 0 {
            label_error(ls[i as int])
        } else {
            first_label_error(ls.skip(i + 1))
        });
        if e == 1 {
            return Err(sni_message(sni, "' has an empty or over-long label"));
        } else if e == 2 {
            return Err(sni_message(sni, "' has a label starting or ending with '-'"));
        } else if e == 3 {
            return Err(sni_message(sni, "' contains characters not valid in a hostname"));
        }
        i = i + 1;
    }
    assert(ls.skip(i as int).len() == 0);
    Ok(())
}

/// Why a profile cannot be run, if it cannot: the listen host and the
/// upstream must be IPv4 addresses, both ports non-zero, and the SNI valid —
/// checked in that order.
pub open spec fn profile_error(p: Profile) -> Option<Seq<char>> {
    if !ipv4_ok(encode_utf8(p.listen_host@)) {
        Some("LISTEN_HOST '"@ + p.listen_host@ + "' is not an IPv4 address"@)
    } else if !ipv4_ok(encode_utf8(p.connect_ip@)) {
        Some("CONNECT_IP '"@ + p.connect_ip@ + "' is not an IPv4 address"@)
    } else if p.listen_port == 0 {
        Some("LISTEN_PORT must be between 1 and 65535"@)
    } else if p.connect_port == 0 {
        Some("CONNECT_PORT must be between 1 and 65535"@)
    } else {
        sni_error(p.fake_sni@)
    }
}

fn not_ipv4_message(field: &str, value: &str) -> (r: String)
    ensures
        r@ == field@ + " '"@ + value@ + "' is not an IPv4 address"@,
{
    let mut msg = String::from_str(field);
    msg.append(" '");
    msg.append(value);
    msg.append("' is not an IPv4 address");
    msg
}

/// Checks everything the engine relies on before it runs a profile.
pub fn validate(p: &Profile) -> (r: Result<(), String>)
    ensures
        match r {
            Ok(()) => profile_error(*p) is None,
            Err(msg) => profile_error(*p) == Some(msg@),
        },
{
    let host = p.listen_host.as_str();
    if parse_ipv4(host).is_none() {
        let r = not_ipv4_message("LISTEN_HOST", host);
        proof {
            reveal_strlit("LISTEN_HOST");
            reveal_strlit("LISTEN_HOST '");
            reveal_strlit(" '");
        }
        assert(r@ =~= "LISTEN_HOST '"@ + p.listen_host@ + "' is not an IPv4 address"@);
        return Err(r);
    }
    let ip = p.connect_ip.as_str();
    if parse_ipv4(ip).is_none() {
        let r = not_ipv4_message("CONNECT_IP", ip);
        proof {
            reveal_strlit("CONNECT_IP");
            reveal_strlit("CONNECT_IP '");
            reveal_strlit(" '");
        }
        assert(r@ =~= "CONNECT_IP '"@ + p.connect_ip@ + "' is not an IPv4 address"@);
        return Err(r);
    }
    if p.listen_port == 0 {
        return Err(String::from_str("LISTEN_PORT must be between 1 and 65535"));
    }
    if p.connect_port == 0 {
        return Err(String::from_str("CONNECT_PORT must be between 1 and 65535"));
    }
    validate_sni(p.fake_sni.as_str())
}

/// A fake SNI the validator accepts always fits the ClientHello: its UTF-8
/// encoding is at most [`MAX_SNI`] bytes, the ceiling the `host_name` field
/// of the fixed-size record can carry.
pub proof fn lemma_accepted_sni_fits_the_hello(sni: Seq<char>)
    requires
        sni_error(sni) is None,
    ensures
        encode_utf8(sni).len() <= MAX_SNI,
{
}

/// A profile the engine accepts has IPv4 addresses on both ends, non-zero
/// ports and an SNI that fits the ClientHello.
pub proof fn lemma_accepted_profile_is_runnable(p: Profile)
    requires
        profile_error(p) is None,
    ensures
        ipv4_ok(encode_utf8(p.listen_host@)),
        ipv4_ok(encode_utf8(p.connect_ip@)),
        p.listen_port != 0,
        p.connect_port != 0,
        encode_utf8(p.fake_sni@).len() <= MAX_SNI,
{
}

} // verus!
