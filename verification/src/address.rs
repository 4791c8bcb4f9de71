//! Dial addresses: full multiaddrs or the short `ip:port` form (taken as QUIC).
use vstd::prelude::*;
use libp2p::Multiaddr;
use crate::text::{
    all_digits, all_digits_in, chars_of, decimal, decimal_string, digits_value, digits_value_upto,
    find_last, parse_port, parse_u16, rsplit_once, slice_range, split_chars, split_on,
};

verus! {

broadcast use vstd::string::group_string_axioms;

#[verifier::external_type_specification]
#[verifier::external_body]
pub struct OutsideMultiaddr(Multiaddr);

#[verifier::external_type_specification]
#[verifier::external_body]
pub struct OutsideMultiaddrError(libp2p::multiaddr::Error);

/// Whether `Multiaddr::from_str` accepts the text.
pub uninterp spec fn multiaddr_accepts(text: Seq<char>) -> bool;

/// Calls `str::parse::<Multiaddr>`; whether it succeeds is a fixed function of
/// the text.
#[verifier::external_body]
fn multiaddr_from_str(text: &str) -> (r: Result<Multiaddr, libp2p::multiaddr::Error>)
    ensures
        (r is Ok) == multiaddr_accepts(text@),
{
    text.parse::<Multiaddr>()
}

/// An IPv4 octet as `Ipv4Addr::from_str` reads it: one to three decimal
/// digits, no leading zero (except `0` itself), at most 255.
pub open spec fn octet(p: Seq<char>) -> Option<u8> {
    if 1 <= p.len() <= 3 && all_digits(p) && (p.len() == 1 || p[0] != '0') && digits_value(p)
        <= 255 {
        Some(digits_value(p) as u8)
    } else {
        None
    }
}

/// What `Ipv4Addr::from_str` gives: four octets separated by dots.
pub open spec fn parse_ipv4(s: Seq<char>) -> Option<(u8, u8, u8, u8)> {
    let f = split_on(s, '.');
    if f.len() == 4 && octet(f[0]) is Some && octet(f[1]) is Some && octet(f[2]) is Some && octet(
        f[3],
    ) is Some {
        Some((octet(f[0])->0, octet(f[1])->0, octet(f[2])->0, octet(f[3])->0))
    } else {
        None
    }
}

/// Where to dial.
pub enum DialTarget {
    /// A full multiaddr, with its text.
    Address { text: String, addr: Multiaddr },
    /// `ip:port`, over QUIC.
    Quic { ip: (u8, u8, u8, u8), port: u16 },
}

/// A dial target as values.
pub enum DialTargetView {
    Address(Seq<char>),
    Quic { ip: (u8, u8, u8, u8), port: u16 },
}

impl View for DialTarget {
    type V = DialTargetView;

    open spec fn view(&self) -> DialTargetView {
        match self {
            DialTarget::Address { text, .. } => DialTargetView::Address(text@),
            DialTarget::Quic { ip, port } => DialTargetView::Quic { ip: *ip, port: *port },
        }
    }
}

/// Why an address could not be read.
#[derive(PartialEq, Eq, Structural, Clone, Copy, Debug)]
pub enum DialError {
    /// It starts with `/` but is not a multiaddr.
    Multiaddr,
    /// It is neither a multiaddr nor of the form `ip:port`.
    Format,
    /// The part before the last `:` is not an IPv4 address.
    Ip,
    /// The part after the last `:` is not a port number.
    Port,
}

/// The message shown for a dial error.
pub open spec fn dial_error_text(e: DialError) -> Seq<char> {
    match e {
        DialError::Multiaddr => "разбор multiaddr"@,
        DialError::Format => "ожидался формат ip:port или /ip4/.../quic-v1"@,
        DialError::Ip => "разбор IP"@,
        DialError::Port => "разбор порта"@,
    }
}

impl DialError {
    /// The message shown for the error.
    pub fn message(&self) -> (r: String)
        ensures
            r@ == dial_error_text(*self),
    {
        match self {
            DialError::Multiaddr => "разбор multiaddr".to_string(),
            DialError::Format => "ожидался формат ip:port или /ip4/.../quic-v1".to_string(),
            DialError::Ip => "разбор IP".to_string(),
            DialError::Port => "разбор порта".to_string(),
        }
    }
}

/// How a dial string is read: a full multiaddr when it starts with `/`,
/// otherwise `ip:port` split at the last colon, taken as QUIC.
pub open spec fn parse_dial_spec(s: Seq<char>) -> Result<DialTargetView, DialError> {
    if s.len() > 0 && s[0] == '/' {
        if multiaddr_accepts(s) {
            Ok(DialTargetView::Address(s))
        } else {
            Err(DialError::Multiaddr)
        }
    } else {
        match rsplit_once(s, ':') {
            None => Err(DialError::Format),
            Some(parts) => match parse_ipv4(parts.0) {
                None => Err(DialError::Ip),
                Some(ip) => match parse_u16(parts.1) {
                    None => Err(DialError::Port),
                    Some(port) => Ok(DialTargetView::Quic { ip, port }),
                },
            },
        }
    }
}

/// Read one octet from `v`.
fn parse_octet(v: &[char]) -> (r: Option<u8>)
    ensures
        r == octet(v@),
{
    let n = v.len();
    if n < 1 || n > 3 {
        return None;
    }
    if !all_digits_in(v, 0, n) {
        assert(v@.subrange(0, n as int) =~= v@);
        return None;
    }
    assert(v@.subrange(0, n as int) =~= v@);
    if n > 1 && v[0] == '0' {
        return None;
    }
    match digits_value_upto(v, 0, n, 255) {
        Some(x) => Some(x as u8),
        None => None,
    }
}

/// Read an IPv4 address as `Ipv4Addr::from_str` does.
pub fn parse_ipv4_chars(v: &[char]) -> (r: Option<(u8, u8, u8, u8)>)
    ensures
        r == parse_ipv4(v@),
{
    let fields = split_chars(v, '.');
    let ghost f = fields@.map_values(|p: Vec<char>| p@);
    if fields.len() != 4 {
        return None;
    }
    assert(f[0] == fields@[0]@ && f[1] == fields@[1]@ && f[2] == fields@[2]@ && f[3] == fields@[3]@);
    let a = parse_octet(fields[0].as_slice());
    let b = parse_octet(fields[1].as_slice());
    let c = parse_octet(fields[2].as_slice());
    let d = parse_octet(fields[3].as_slice());
    match (a, b, c, d) {
        (Some(a), Some(b), Some(c), Some(d)) => Some((a, b, c, d)),
        _ => None,
    }
}

/// Read a dial string: a full multiaddr, or a short `ip:port` (taken as QUIC).
pub fn parse_dial(addr: &str) -> (r: Result<DialTarget, DialError>)
    ensures
        match r {
            Ok(t) => parse_dial_spec(addr@) == Ok::<DialTargetView, DialError>(t@),
            Err(e) => parse_dial_spec(addr@) == Err::<DialTargetView, DialError>(e),
        },
{
    let v = chars_of(addr);
    if v.len() > 0 && v[0] == '/' {
        return match multiaddr_from_str(addr) {
            Ok(m) => Ok(DialTarget::Address { text: addr.to_string(), addr: m }),
            Err(_) => Err(DialError::Multiaddr),
        };
    }
    let k = match find_last(v.as_slice(), ':') {
        Some(k) => k,
        None => return Err(DialError::Format),
    };
    let ip_part = slice_range(v.as_slice(), 0, k);
    let port_part = slice_range(v.as_slice(), k + 1, v.len());
    assert(ip_part@ =~= v@.take(k as int));
    assert(port_part@ =~= v@.skip(k + 1));
    let ip = match parse_ipv4_chars(ip_part.as_slice()) {
        Some(ip) => ip,
        None => return Err(DialError::Ip),
    };
    match parse_port(port_part.as_slice()) {
        Some(port) => Ok(DialTarget::Quic { ip, port }),
        None => Err(DialError::Port),
    }
}

/// The QUIC and TCP addresses to listen on for a port (0 picks a free one).
pub open spec fn listen_texts(port: u16) -> (Seq<char>, Seq<char>) {
    (
        "/ip4/0.0.0.0/udp/"@ + decimal(port as nat) + "/quic-v1"@,
        "/ip4/0.0.0.0/tcp/"@ + decimal(port as nat),
    )
}

/// The QUIC and TCP addresses to listen on for a port.
pub fn listen_addresses(port: u16) -> (r: (String, String))
    ensures
        (r.0@, r.1@) == listen_texts(port),
{
    let num = decimal_string(port as u64);
    let mut quic = "/ip4/0.0.0.0/udp/".to_string();
    quic.append(num.as_str());
    quic.append("/quic-v1");
    let mut tcp = "/ip4/0.0.0.0/tcp/".to_string();
    tcp.append(num.as_str());
    (quic, tcp)
}

/// The multiaddr text of the short form `ip:port`, taken as QUIC:
/// `/ip4/a.b.c.d/udp/port/quic-v1`.
pub open spec fn quic_text(ip: (u8, u8, u8, u8), port: u16) -> Seq<char> {
    "/ip4/"@ + decimal(ip.0 as nat) + "."@ + decimal(ip.1 as nat) + "."@ + decimal(ip.2 as nat)
        + "."@ + decimal(ip.3 as nat) + "/udp/"@ + decimal(port as nat) + "/quic-v1"@
}

/// The multiaddr to dial for the short form `ip:port` (over QUIC), read from
/// its text; `None` only if `Multiaddr` does not accept that text.
pub fn quic_multiaddr(ip: (u8, u8, u8, u8), port: u16) -> (r: Option<Multiaddr>)
    ensures
        (r is Some) == multiaddr_accepts(quic_text(ip, port)),
{
    let mut t = "/ip4/".to_string();
    t.append(decimal_string(ip.0 as u64).as_str());
    t.append(".");
    t.append(decimal_string(ip.1 as u64).as_str());
    t.append(".");
    t.append(decimal_string(ip.2 as u64).as_str());
    t.append(".");
    t.append(decimal_string(ip.3 as u64).as_str());
    t.append("/udp/");
    t.append(decimal_string(port as u64).as_str());
    t.append("/quic-v1");
    proof {
        reveal_strlit("/ip4/");
        reveal_strlit(".");
        reveal_strlit("/udp/");
        reveal_strlit("/quic-v1");
    }
    assert(t@ =~= quic_text(ip, port));
    match multiaddr_from_str(t.as_str()) {
        Ok(a) => Some(a),
        Err(_) => None,
    }
}

} // verus!
