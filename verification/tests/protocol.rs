use std::collections::BTreeMap;

use p2p_chat::protocol::{WireMsg, PROTOCOL};

// The library holds wire messages as values; turning them into bytes is done
// by the program around it, with serde's derived layout for an enum: the
// variant name mapped to the variant's fields, in order, as an array. These
// helpers write and read that layout by hand with rmp-serde, so the test
// below checks that the layout carries both kinds of message through
// MessagePack intact; it does not exercise the program's own serde types.
fn encode(msg: &WireMsg) -> Vec<u8> {
    match msg {
        WireMsg::Encrypted { ty, body } => {
            let mut m = BTreeMap::new();
            m.insert("Encrypted".to_string(), (*ty, body.clone()));
            rmp_serde::to_vec(&m).unwrap()
        }
        WireMsg::KeyBundle { ed25519, curve25519, one_time_key, nick } => {
            let mut m = BTreeMap::new();
            m.insert(
                "KeyBundle".to_string(),
                (ed25519.clone(), curve25519.clone(), one_time_key.clone(), nick.clone()),
            );
            rmp_serde::to_vec(&m).unwrap()
        }
    }
}

fn decode(bytes: &[u8]) -> Option<WireMsg> {
    if let Ok(m) = rmp_serde::from_slice::<BTreeMap<String, (u8, Vec<u8>)>>(bytes) {
        if let Some((ty, body)) = m.get("Encrypted") {
            return Some(WireMsg::Encrypted { ty: *ty, body: body.clone() });
        }
    }
    let m: BTreeMap<String, (String, String, String, String)> = rmp_serde::from_slice(bytes).ok()?;
    let (ed25519, curve25519, one_time_key, nick) = m.get("KeyBundle")?.clone();
    Some(WireMsg::KeyBundle { ed25519, curve25519, one_time_key, nick })
}

#[test]
fn wire_roundtrip() {
    let msg = WireMsg::Encrypted { ty: 1, body: vec![1, 2, 3, 4] };
    let bytes = encode(&msg);
    let back = decode(&bytes).unwrap();
    assert!(matches!(back, WireMsg::Encrypted { ty: 1, body } if body == vec![1,2,3,4]));

    let bundle = WireMsg::KeyBundle {
        ed25519: "a".into(),
        curve25519: "b".into(),
        one_time_key: "c".into(),
        nick: "alice".into(),
    };
    let bytes = encode(&bundle);
    let back = decode(&bytes).unwrap();
    assert!(matches!(back, WireMsg::KeyBundle { nick, .. } if nick == "alice"));
}

#[test]
fn protocol_name() {
    assert_eq!(PROTOCOL, "/p2p-chat/1");
}
