use std::collections::{BTreeMap, VecDeque};

use p2p_chat::crypto::Plain;
use p2p_chat::engine::{dial_outcome, file_saved, file_unreadable, Effect, Engine};
use p2p_chat::identity::Identity;
use p2p_chat::message::{AppEvent, Presence, UiCommand};
use p2p_chat::peer::PeerKey;
use p2p_chat::protocol::WireMsg;

fn new_key() -> PeerKey {
    let id = libp2p::identity::Keypair::generate_ed25519().public().to_peer_id();
    PeerKey { bytes: id.to_bytes(), text: id.to_string() }
}

fn engine(nick: &str, key: &PeerKey) -> Engine {
    let (identity, _stored) = Identity::load_or_create(nick.into(), "/tmp/identity.bin".into(), None).unwrap();
    Engine::new(identity, key.copy())
}

// The payload codec: MessagePack, the variant name mapped to its value.
fn encode(plain: &Plain) -> Vec<u8> {
    match plain {
        Plain::Hello { nick } => {
            let mut m = BTreeMap::new();
            m.insert("Hello".to_string(), (nick.clone(),));
            rmp_serde::to_vec(&m).unwrap()
        }
        Plain::Text(t) => {
            let mut m = BTreeMap::new();
            m.insert("Text".to_string(), t.clone());
            rmp_serde::to_vec(&m).unwrap()
        }
        Plain::FileOffer { id, name, size } => {
            let mut m = BTreeMap::new();
            m.insert("FileOffer".to_string(), (*id, name.clone(), *size));
            rmp_serde::to_vec(&m).unwrap()
        }
        Plain::FileChunk { id, offset, total, data } => {
            let mut m = BTreeMap::new();
            m.insert("FileChunk".to_string(), (*id, *offset, *total, data.clone()));
            rmp_serde::to_vec(&m).unwrap()
        }
    }
}

fn decode(bytes: &[u8]) -> Option<Plain> {
    if let Ok(m) = rmp_serde::from_slice::<BTreeMap<String, String>>(bytes) {
        return m.get("Text").map(|t| Plain::Text(t.clone()));
    }
    if let Ok(m) = rmp_serde::from_slice::<BTreeMap<String, (String,)>>(bytes) {
        return m.get("Hello").map(|h| Plain::Hello { nick: h.0.clone() });
    }
    if let Ok(m) = rmp_serde::from_slice::<BTreeMap<String, (u64, String, u64)>>(bytes) {
        return m.get("FileOffer").map(|o| Plain::FileOffer { id: o.0, name: o.1.clone(), size: o.2 });
    }
    let m = rmp_serde::from_slice::<BTreeMap<String, (u64, u64, u64, Vec<u8>)>>(bytes).ok()?;
    m.get("FileChunk").map(|c| Plain::FileChunk { id: c.0, offset: c.1, total: c.2, data: c.3.clone() })
}

struct Net {
    engines: [Engine; 2],
    keys: [PeerKey; 2],
    queue: VecDeque<(usize, Effect)>,
    events: [Vec<AppEvent>; 2],
    saved: [Vec<(String, Vec<u8>)>; 2],
    store_ok: [bool; 2],
}

impl Net {
    fn new() -> Net {
        let ka = new_key();
        let kb = new_key();
        let a = engine("alice", &ka);
        let b = engine("bob", &kb);
        Net {
            engines: [a, b],
            keys: [ka, kb],
            queue: VecDeque::new(),
            events: [Vec::new(), Vec::new()],
            saved: [Vec::new(), Vec::new()],
            store_ok: [true, true],
        }
    }

    fn push(&mut self, side: usize, effects: Vec<Effect>) {
        for e in effects {
            self.queue.push_back((side, e));
        }
    }

    fn pump(&mut self) {
        while let Some((side, e)) = self.queue.pop_front() {
            let other = 1 - side;
            match e {
                Effect::Emit(ev) => self.events[side].push(ev),
                Effect::Send { msg, .. } => {
                    let from = self.keys[side].copy();
                    let out = self.engines[other].handle_wire(&from, msg);
                    self.push(other, out);
                }
                Effect::Encode { peer, plain } => {
                    let out = self.engines[side].encoded(&peer, &encode(&plain));
                    self.push(side, out);
                }
                Effect::Decode { peer, bytes } => {
                    let plain = decode(&bytes).expect("a payload");
                    assert!(self.engines[side].plain_fits(&peer, &plain));
                    let out = self.engines[side].on_plain(&peer, plain);
                    self.push(side, out);
                }
                Effect::StoreForSession { peer, .. } => {
                    let out = self.engines[side].identity_stored(&peer, self.store_ok[side]);
                    self.push(side, out);
                }
                Effect::SaveFile { peer, name, data, received, total } => {
                    self.saved[side].push((name.clone(), data));
                    let out = file_saved(peer, name.clone(), received, total, Ok(format!("/dl/{name}")));
                    self.push(side, out);
                }
                _ => {}
            }
        }
    }

    fn connect(&mut self) {
        for side in 0..2 {
            let out = self.engines[side].handle_ui_command(UiCommand::Start {
                nick: String::new(),
                port: 0,
                dials: Vec::new(),
            });
            self.push(side, out);
        }
        for side in 0..2 {
            let other = self.keys[1 - side].copy();
            let out = self.engines[side].connection_established(&other);
            self.push(side, out);
        }
        self.pump();
    }
}

#[test]
fn start_once_then_listen() {
    let key = new_key();
    let mut e = engine("alice", &key);
    let out = e.handle_ui_command(UiCommand::Start {
        nick: "alice2".into(),
        port: 4001,
        dials: vec!["1.2.3.4:5".into(), "bad".into()],
    });
    assert!(matches!(out.as_slice(), [Effect::Listen { port: 4001 }]));
    let again = e.handle_ui_command(UiCommand::Start { nick: "x".into(), port: 1, dials: Vec::new() });
    assert!(again.is_empty());
    let out = e.listen_result(4001, None);
    assert_eq!(out.len(), 4);
    assert!(matches!(&out[0], Effect::Dial { addr, announce: false, .. } if addr == "1.2.3.4:5"));
    assert!(matches!(&out[1], Effect::Emit(AppEvent::Status(s)) if s == "неверный адрес bad: ожидался формат ip:port или /ip4/.../quic-v1"));
    assert!(matches!(&out[2], Effect::RestartDiscovery));
    let fp = e.identity().fingerprint();
    assert!(matches!(&out[3], Effect::Emit(AppEvent::Status(s)) if *s == format!("ваш fingerprint: {fp} (ник: alice2)")));
}

#[test]
fn listen_failure_is_reported() {
    let key = new_key();
    let mut e = engine("a", &key);
    e.handle_ui_command(UiCommand::Start { nick: "a".into(), port: 5, dials: vec!["1.1.1.1:1".into()] });
    let out = e.listen_result(5, Some("address in use".into()));
    assert_eq!(out.len(), 1);
    assert!(matches!(&out[0], Effect::Emit(AppEvent::Status(s)) if s == "не удалось начать слушать на порту 5: address in use"));
}

#[test]
fn discovery_waits_for_the_start() {
    let key = new_key();
    let mut e = engine("a", &key);
    assert!(e.discovered().is_empty());
    e.handle_ui_command(UiCommand::Start { nick: "a".into(), port: 0, dials: Vec::new() });
    assert!(matches!(e.discovered().as_slice(), [Effect::DialDiscovered]));
    assert!(matches!(e.handle_ui_command(UiCommand::RefreshDiscovery).as_slice(), [Effect::RestartDiscovery]));
    assert!(e.handle_ui_command(UiCommand::Quit).is_empty());
}

#[test]
fn dial_by_hand() {
    let key = new_key();
    let mut e = engine("a", &key);
    let out = e.handle_ui_command(UiCommand::Dial { addr: "10.0.0.1:4001".into() });
    assert!(matches!(&out[..], [Effect::Dial { announce: true, .. }]));
    let out = dial_outcome("10.0.0.1:4001", true, None);
    assert!(matches!(&out[..], [Effect::Emit(AppEvent::Status(s))] if s == "набираю 10.0.0.1:4001…"));
    let out = dial_outcome("x", true, Some("no route".into()));
    assert!(matches!(&out[..], [Effect::Emit(AppEvent::Status(s))] if s == "не удалось набрать x: no route"));
    assert!(dial_outcome("x", false, None).is_empty());
    let out = file_unreadable("нет такого файла");
    assert!(matches!(&out[..], [Effect::Emit(AppEvent::Status(s))] if s == "не удалось прочитать файл: нет такого файла"));
}

#[test]
fn listening_address_carries_our_id() {
    let key = new_key();
    let e = engine("a", &key);
    let out = e.new_listen_addr("/ip4/1.2.3.4/udp/5/quic-v1");
    let want = format!("/ip4/1.2.3.4/udp/5/quic-v1/p2p/{}", key.text);
    assert!(matches!(&out[..], [Effect::Emit(AppEvent::Listening { addr })] if *addr == want));
}

#[test]
fn bundle_goes_out_once() {
    let key = new_key();
    let other = new_key();
    let mut e = engine("alice", &key);
    let out = e.connection_established(&other);
    assert_eq!(out.len(), 3);
    assert!(matches!(&out[0], Effect::Emit(AppEvent::PeerPresence { presence: Presence::Online, .. })));
    assert!(matches!(&out[1], Effect::StoreIdentity { stored: Some(_) }));
    assert!(matches!(&out[2], Effect::Send { msg: WireMsg::KeyBundle { nick, .. }, .. } if nick == "alice"));
    let again = e.connection_established(&other);
    assert_eq!(again.len(), 1);
    let out = e.connection_closed(&other, 1);
    assert!(out.is_empty());
    let out = e.connection_closed(&other, 0);
    assert!(matches!(&out[..], [Effect::Emit(AppEvent::PeerPresence { presence: Presence::Offline, .. })]));
}

#[test]
fn verify_known_peer_only() {
    let key = new_key();
    let other = new_key();
    let mut e = engine("alice", &key);
    assert!(e.handle_ui_command(UiCommand::VerifyPeer { peer: other.copy() }).is_empty());
    e.connection_established(&other);
    let out = e.handle_ui_command(UiCommand::VerifyPeer { peer: other.copy() });
    assert!(matches!(&out[..], [Effect::Emit(AppEvent::Status(s))] if s == "пир  помечен доверенным"));
}

#[test]
fn session_and_messages_end_to_end() {
    let mut net = Net::new();
    net.connect();
    // Each side heard of the other once, with its nickname and fingerprint.
    for side in 0..2 {
        let found: Vec<&AppEvent> = net.events[side]
            .iter()
            .filter(|e| matches!(e, AppEvent::PeerDiscovered { .. }))
            .collect();
        assert_eq!(found.len(), 1);
        let other_nick = if side == 0 { "bob" } else { "alice" };
        let other_fp = net.engines[1 - side].identity().fingerprint();
        assert!(matches!(found[0], AppEvent::PeerDiscovered { nick, fingerprint, .. } if nick == other_nick && *fingerprint == other_fp));
    }
    // Text in both directions.
    let kb = net.keys[1].copy();
    let out = net.engines[0].send_text(&kb, "привет".into());
    net.push(0, out);
    let ka = net.keys[0].copy();
    let out = net.engines[1].send_text(&ka, "здравствуй".into());
    net.push(1, out);
    net.pump();
    assert!(net.events[1].iter().any(|e| matches!(e, AppEvent::MessageReceived { text, peer } if text == "привет" && peer.bytes == net.keys[0].bytes)));
    assert!(net.events[0].iter().any(|e| matches!(e, AppEvent::MessageReceived { text, .. } if text == "здравствуй")));
}

#[test]
fn file_end_to_end() {
    let mut net = Net::new();
    net.connect();
    let data: Vec<u8> = (0..40000u32).map(|i| (i % 253) as u8).collect();
    let kb = net.keys[1].copy();
    assert!(net.engines[0].can_send_file());
    let out = net.engines[0].file_loaded(&kb, "/home/a/report.txt", data.clone());
    assert!(matches!(out.last(), Some(Effect::Emit(AppEvent::FileProgress { outgoing: true, received: 40000, total: 40000, .. }))));
    net.push(0, out);
    net.pump();
    assert_eq!(net.saved[1].len(), 1);
    assert_eq!(net.saved[1][0].0, "report.txt");
    assert_eq!(net.saved[1][0].1, data);
    assert!(net.events[1].iter().any(|e| matches!(e, AppEvent::FileProgress { done: Some(p), outgoing: false, .. } if p == "/dl/report.txt")));
    // A second file gets the next identifier and arrives as well.
    let out = net.engines[0].file_loaded(&kb, "b.bin", vec![1, 2, 3]);
    net.push(0, out);
    net.pump();
    assert_eq!(net.saved[1].len(), 2);
    assert_eq!(net.saved[1][1].1, vec![1, 2, 3]);
}

#[test]
fn payloads_wait_for_the_session() {
    let key = new_key();
    let other = new_key();
    let mut e = engine("alice", &key);
    let out = e.send_text(&other, "early".into());
    assert!(out.is_empty());
    let out = e.encoded(&other, &[1, 2, 3]);
    assert!(out.is_empty());
}

#[test]
fn saving_can_fail() {
    let out = file_saved(new_key(), "a".into(), 1, 1, Err("disk full".into()));
    assert!(matches!(&out[..], [Effect::Emit(AppEvent::Status(s))] if s == "сохранение файла не удалось: disk full"));
}

#[test]
fn fingerprint_groups() {
    assert_eq!(p2p_chat::identity::fingerprint_of("abcdefghij"), "abcd efgh ij");
    assert_eq!(p2p_chat::identity::fingerprint_of(""), "");
    assert_eq!(p2p_chat::identity::fingerprint_of("abcd"), "abcd");
}

#[test]
fn identity_round_trip_and_corrupt_store() {
    let (mut id, stored) = Identity::load_or_create("n".into(), "/p".into(), None).unwrap();
    let (_key, after) = id.take_one_time_key();
    let after = after.unwrap();
    let (reloaded, handed_back) = Identity::load_or_create("n".into(), "/p".into(), Some(after.clone())).unwrap();
    assert_eq!(handed_back, after);
    assert_eq!(reloaded.fingerprint(), id.fingerprint());
    assert_eq!(reloaded.identity_curve_base64(), id.identity_curve_base64());
    let (again, _) = Identity::load_or_create("m".into(), "/p".into(), Some(stored)).unwrap();
    assert_eq!(id.identity_ed_base64(), again.identity_ed_base64());
    assert_eq!(id.identity_curve_base64(), again.identity_curve_base64());
    assert_eq!(again.nick(), "m");
    assert!(matches!(
        Identity::load_or_create("n".into(), "/p".into(), Some(vec![0xc1, 0x00])),
        Err(p2p_chat::identity::IdentityError::Corrupt)
    ));
}

#[test]
fn chunks_without_offer_in_any_order() {
    let key = new_key();
    let other = new_key();
    let mut e = engine("alice", &key);
    let data: Vec<u8> = (0..(2 * 16384 + 10)).map(|i| (i % 7) as u8).collect();
    let chunks = p2p_chat::file_transfer::chunk_data(&data);
    let order = [2usize, 0, 1];
    for (n, &k) in order.iter().enumerate() {
        let (offset, bytes) = &chunks[k];
        let plain = Plain::FileChunk { id: 9, offset: *offset, total: data.len() as u64, data: bytes.clone() };
        assert!(e.plain_fits(&other, &plain));
        let out = e.on_plain(&other, plain);
        assert_eq!(out.len(), 1);
        if n + 1 < order.len() {
            assert!(matches!(&out[0], Effect::Emit(AppEvent::FileProgress { done: None, outgoing: false, .. })));
        } else {
            match &out[0] {
                Effect::SaveFile { name, data: saved, received, total, .. } => {
                    assert_eq!(name, "file");
                    assert_eq!(saved, &data);
                    assert_eq!(*received, data.len() as u64);
                    assert_eq!(*total, data.len() as u64);
                }
                _ => panic!("expected the file to be saved"),
            }
        }
    }
}

#[test]
fn inbound_session_waits_for_the_stored_identity() {
    let mut net = Net::new();
    net.store_ok = [false, false];
    net.connect();
    // The side that starts sends its greeting; the other makes the session
    // but cannot store its identity, so it drops the session and the greeting.
    let kb = net.keys[1].copy();
    let out = net.engines[0].send_text(&kb, "привет".into());
    net.push(0, out);
    let ka = net.keys[0].copy();
    let out = net.engines[1].send_text(&ka, "здравствуй".into());
    net.push(1, out);
    net.pump();
    let received: usize = (0..2)
        .map(|side| net.events[side].iter().filter(|e| matches!(e, AppEvent::MessageReceived { .. })).count())
        .sum();
    assert_eq!(received, 0);
}
