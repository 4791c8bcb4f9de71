use std::collections::BTreeMap;

use p2p_chat::crypto::{open, parse_message, seal, CryptoError, OlmPayload, OlmSession};
use vodozemac::olm::{Account, SessionConfig};

// A text payload as the payload codec writes it: MessagePack, the variant
// name mapped to its value (the same bytes as a one-entry map).
fn text_payload(text: &str) -> Vec<u8> {
    let mut m = BTreeMap::new();
    m.insert("Text".to_string(), text.to_string());
    rmp_serde::to_vec(&m).unwrap()
}

fn payload_text(bytes: &[u8]) -> Option<String> {
    let m: BTreeMap<String, String> = rmp_serde::from_slice(bytes).ok()?;
    if m.len() != 1 {
        return None;
    }
    m.get("Text").cloned()
}

#[test]
fn olm_roundtrip_via_plain() {
    // Bob makes an account and publishes a one-time key.
    let mut bob = Account::new();
    bob.generate_one_time_keys(1);
    let bob_otk = *bob.one_time_keys().values().next().unwrap();
    let bob_identity = bob.curve25519_key();

    // Alice makes the outbound session to Bob and sends the first (pre-key) packet.
    let alice = Account::new();
    let mut alice_session =
        OlmSession::new(alice.create_outbound_session(SessionConfig::default(), bob_identity, bob_otk));

    let (ty, body) = seal(&mut alice_session, &text_payload("привет"));

    // Bob makes the inbound session from the pre-key message.
    let msg = parse_message(ty, &body).unwrap();
    let prekey = match msg {
        OlmPayload::PreKey(p) => p,
        OlmPayload::Normal(_) => panic!("ожидался PreKey"),
    };
    let result = bob.create_inbound_session(alice.curve25519_key(), &prekey).unwrap();
    let mut bob_session = OlmSession::new(result.session);
    let first = payload_text(&result.plaintext);
    assert!(matches!(first, Some(t) if t == "привет"));

    // The other direction: a normal message.
    let (ty, body) = seal(&mut bob_session, &text_payload("здравствуй"));
    let back = payload_text(&open(&mut alice_session, ty, &body).unwrap());
    assert!(matches!(back, Some(t) if t == "здравствуй"));
}

#[test]
fn unknown_message_type_is_malformed() {
    assert!(matches!(parse_message(2, &[1, 2, 3]), Err(CryptoError::Malformed)));
    assert!(matches!(parse_message(0, &[]), Err(CryptoError::Malformed)));
}

#[test]
fn first_message_is_prekey_then_normal() {
    let mut bob = Account::new();
    bob.generate_one_time_keys(1);
    let bob_otk = *bob.one_time_keys().values().next().unwrap();
    let alice = Account::new();
    let mut session =
        OlmSession::new(alice.create_outbound_session(SessionConfig::default(), bob.curve25519_key(), bob_otk));
    let (ty, body) = seal(&mut session, b"x");
    assert_eq!(ty, 0);
    assert!(body.len() > 1);
    let long = vec![7u8; 1000];
    let (_, body2) = seal(&mut session, &long);
    assert!(body2.len() > long.len());
    assert!(matches!(parse_message(ty, &body), Ok(OlmPayload::PreKey(_))));
}

#[test]
fn garbage_does_not_open() {
    let mut bob = Account::new();
    bob.generate_one_time_keys(1);
    let bob_otk = *bob.one_time_keys().values().next().unwrap();
    let alice = Account::new();
    let mut session =
        OlmSession::new(alice.create_outbound_session(SessionConfig::default(), bob.curve25519_key(), bob_otk));
    assert!(matches!(open(&mut session, 7, &[0, 1]), Err(CryptoError::Malformed)));
}

#[test]
fn foreign_message_is_undecryptable() {
    let mut bob = Account::new();
    bob.generate_one_time_keys(2);
    let keys: Vec<_> = bob.one_time_keys().values().copied().collect();
    let alice = Account::new();
    let mut first =
        OlmSession::new(alice.create_outbound_session(SessionConfig::default(), bob.curve25519_key(), keys[0]));
    let mut second =
        OlmSession::new(alice.create_outbound_session(SessionConfig::default(), bob.curve25519_key(), keys[1]));
    let (ty, body) = seal(&mut first, &text_payload("секрет"));
    let (ty2, body2) = seal(&mut second, &text_payload("другое"));
    assert!(matches!(open(&mut second, ty, &body), Err(CryptoError::Undecryptable)));
    assert!(matches!(open(&mut first, ty2, &body2), Err(CryptoError::Undecryptable)));
}
