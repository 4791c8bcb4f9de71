use p2p_chat::address::{listen_addresses, parse_dial, quic_multiaddr, DialError, DialTarget};
use p2p_chat::text::{chars_of, decimal_string, parse_port, string_of, trimmed};

#[test]
fn trims_like_str_trim() {
    let t = trimmed(&chars_of("  \t привет мир \n"));
    assert_eq!(string_of(&t), "привет мир");
    assert_eq!(string_of(&trimmed(&chars_of("   "))), "");
    assert_eq!(string_of(&trimmed(&chars_of("\u{3000}x\u{A0}"))), "x");
}

#[test]
fn ports_parse_like_u16() {
    assert_eq!(parse_port(&chars_of("8080")), Some(8080));
    assert_eq!(parse_port(&chars_of("0")), Some(0));
    assert_eq!(parse_port(&chars_of("65535")), Some(65535));
    assert_eq!(parse_port(&chars_of("+80")), Some(80));
    assert_eq!(parse_port(&chars_of("007")), Some(7));
    assert_eq!(parse_port(&chars_of("65536")), None);
    assert_eq!(parse_port(&chars_of("")), None);
    assert_eq!(parse_port(&chars_of("+")), None);
    assert_eq!(parse_port(&chars_of("12a")), None);
    assert_eq!(parse_port(&chars_of("-1")), None);
    assert_eq!(parse_port(&chars_of("99999999999")), None);
}

#[test]
fn decimal_text() {
    assert_eq!(decimal_string(0), "0");
    assert_eq!(decimal_string(12345), "12345");
    assert_eq!(decimal_string(u64::MAX), "18446744073709551615");
}

#[test]
fn dial_short_form_is_quic() {
    match parse_dial("192.168.1.10:4001") {
        Ok(DialTarget::Quic { ip, port }) => {
            assert_eq!(ip, (192, 168, 1, 10));
            assert_eq!(port, 4001);
        }
        _ => panic!("expected a QUIC target"),
    }
}

#[test]
fn dial_full_multiaddr() {
    match parse_dial("/ip4/127.0.0.1/udp/4001/quic-v1") {
        Ok(DialTarget::Address { text, addr }) => {
            assert_eq!(text, "/ip4/127.0.0.1/udp/4001/quic-v1");
            assert_eq!(addr.to_string(), "/ip4/127.0.0.1/udp/4001/quic-v1");
        }
        _ => panic!("expected a multiaddr"),
    }
}

#[test]
fn dial_errors() {
    assert!(matches!(parse_dial("/not-a-protocol/x"), Err(DialError::Multiaddr)));
    assert!(matches!(parse_dial("localhost"), Err(DialError::Format)));
    assert!(matches!(parse_dial("1.2.3:80"), Err(DialError::Ip)));
    assert!(matches!(parse_dial("256.1.1.1:80"), Err(DialError::Ip)));
    assert!(matches!(parse_dial("01.2.3.4:80"), Err(DialError::Ip)));
    assert!(matches!(parse_dial("1.2.3.4:"), Err(DialError::Port)));
    assert!(matches!(parse_dial("1.2.3.4:70000"), Err(DialError::Port)));
    assert_eq!(DialError::Format.message(), "ожидался формат ip:port или /ip4/.../quic-v1");
    assert_eq!(DialError::Ip.message(), "разбор IP");
    assert_eq!(DialError::Port.message(), "разбор порта");
    assert_eq!(DialError::Multiaddr.message(), "разбор multiaddr");
}

#[test]
fn listen_on_quic_and_tcp() {
    let (quic, tcp) = listen_addresses(4001);
    assert_eq!(quic, "/ip4/0.0.0.0/udp/4001/quic-v1");
    assert_eq!(tcp, "/ip4/0.0.0.0/tcp/4001");
    let (quic, tcp) = listen_addresses(0);
    assert_eq!(quic, "/ip4/0.0.0.0/udp/0/quic-v1");
    assert_eq!(tcp, "/ip4/0.0.0.0/tcp/0");
}

#[test]
fn short_form_becomes_a_quic_multiaddr() {
    let a = quic_multiaddr((192, 168, 1, 5), 4001).unwrap();
    assert_eq!(a.to_string(), "/ip4/192.168.1.5/udp/4001/quic-v1");
    let z = quic_multiaddr((0, 0, 0, 0), 0).unwrap();
    assert_eq!(z.to_string(), "/ip4/0.0.0.0/udp/0/quic-v1");
}
